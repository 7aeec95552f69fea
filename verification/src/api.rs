//! The decisions of the HTTP surface: entity tags, conditional reads and the
//! compare-and-swap write. The server performs the I/O; these functions say
//! what to answer.
use vstd::prelude::*;

use crate::error::ValidationError;
use crate::model::Canvas;
use crate::rev::{rev, rev_of};
use crate::validate::{validate, validation_errors};

verus! {

/// The entity tag of a document: its revision in double quotes.
pub open spec fn etag_of(canonical: Seq<u8>) -> Seq<char> {
    seq!['"'] + rev_of(canonical) + seq!['"']
}

/// The header value `sent` is present and is, byte for byte, the UTF-8 text
/// of `etag`.
pub open spec fn header_matches(sent: Option<Seq<u8>>, etag: Seq<char>) -> bool {
    sent matches Some(b) && b == vstd::utf8::encode_utf8(etag)
}

/// The view of an optional header value.
pub open spec fn header_view(sent: Option<&[u8]>) -> Option<Seq<u8>> {
    match sent {
        Some(b) => Some(b@),
        None => None,
    }
}

/// The entity tag of the document whose canonical serialization is
/// `canonical`.
pub fn etag(canonical: &[u8]) -> (r: String)
    ensures
        r@ == etag_of(canonical@),
{
    proof {
        reveal_strlit("\"");
    }
    let mut e = "\"".to_owned();
    e.append(rev(canonical).as_str());
    e.append("\"");
    assert(e@ =~= etag_of(canonical@));
    e
}

/// Byte-for-byte equality of two byte strings.
fn bytes_equal(a: &[u8], b: &[u8]) -> (r: bool)
    ensures
        r == (a@ == b@),
{
    if a.len() != b.len() {
        return false;
    }
    let mut i: usize = 0;
    while i < a.len()
        invariant
            a@.len() == b@.len(),
            i <= a@.len(),
            forall|k: int| 0 <= k < i ==> a@[k] == b@[k],
        decreases a@.len() - i,
    {
        if a[i] != b[i] {
            return false;
        }
        i += 1;
    }
    assert(a@ =~= b@);
    true
}

/// Compares the entity tag a client sent in a header with ours, byte for
/// byte. A missing header never matches.
pub fn etag_matches(sent: Option<&[u8]>, etag: &str) -> (r: bool)
    ensures
        r == header_matches(header_view(sent), etag@),
{
    match sent {
        Some(b) => bytes_equal(b, etag.as_bytes()),
        None => false,
    }
}

/// What a conditional read answers.
pub enum GetOutcome {
    /// The client already holds this version: 304 with the tag, no body.
    NotModified { etag: String },
    /// Send the document with its tag.
    Document { etag: String },
}

/// Decides a read of the document whose canonical serialization is
/// `canonical`, given the client's `If-None-Match` value.
pub fn get_outcome(if_none_match: Option<&[u8]>, canonical: &[u8]) -> (r: GetOutcome)
    ensures
        header_matches(header_view(if_none_match), etag_of(canonical@)) ==> (r matches GetOutcome::NotModified {
            etag,
        } && etag@ == etag_of(canonical@)),
        !header_matches(header_view(if_none_match), etag_of(canonical@)) ==> (r matches GetOutcome::Document {
            etag,
        } && etag@ == etag_of(canonical@)),
{
    let etag = etag(canonical);
    if etag_matches(if_none_match, etag.as_str()) {
        GetOutcome::NotModified { etag }
    } else {
        GetOutcome::Document { etag }
    }
}

/// The next step of a whole-document write.
pub enum PutStep {
    /// No `If-Match`: an unconditional write could lose someone else's
    /// edit, so it is refused (428) before anything is read.
    PreconditionRequired,
    /// Read the current document and decide again.
    LoadCurrent,
    /// The client's tag is stale: answer 409 with the current tag and
    /// document.
    Conflict { etag: String },
    /// The incoming document breaks these rules: answer 422 and write
    /// nothing.
    Unprocessable { errors: Vec<ValidationError> },
    /// Write the incoming document and answer 204 with its tag.
    Save { etag: String },
}

/// Decides the compare-and-swap write of `incoming` (canonical form
/// `incoming_canonical`) over the current document (canonical form
/// `current`, once it has been read).
pub fn put_step(
    if_match: Option<&[u8]>,
    current: Option<&[u8]>,
    incoming: &Canvas,
    incoming_canonical: &[u8],
) -> (r: PutStep)
    ensures
        if if_match is None {
            r is PreconditionRequired
        } else {
            match current {
            None => r is LoadCurrent,
            Some(cur) => if !header_matches(header_view(if_match), etag_of(cur@)) {
                r matches PutStep::Conflict { etag } && etag@ == etag_of(cur@)
            } else if validation_errors(incoming@).len() > 0 {
                r matches PutStep::Unprocessable { errors } && errors@ == validation_errors(
                    incoming@,
                )
            } else {
                r matches PutStep::Save { etag } && etag@ == etag_of(incoming_canonical@)
            },
            }
        },
{
    if if_match.is_none() {
        return PutStep::PreconditionRequired;
    }
    match current {
        None => PutStep::LoadCurrent,
        Some(cur) => {
            let current_etag = etag(cur);
            if !etag_matches(if_match, current_etag.as_str()) {
                return PutStep::Conflict { etag: current_etag };
            }
            match validate(incoming) {
                Err(errors) => PutStep::Unprocessable { errors },
                Ok(()) => PutStep::Save { etag: etag(incoming_canonical) },
            }
        },
    }
}

} // verus!
