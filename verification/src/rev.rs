//! Content revisions and fresh ids, both read off BLAKE3 digests as
//! lowercase hex.
use vstd::prelude::*;

use crate::model::{Canvas, CanvasView};
use crate::validate::{has_edge_id, has_node_id};

verus! {

/// The BLAKE3 digest of a byte string, as `blake3::hash` computes it.
pub uninterp spec fn blake3_digest(data: Seq<u8>) -> Seq<u8>;

/// `blake3::hash`, read out as its 32 raw bytes (`Hash::as_bytes`). The
/// contract claims only that those bytes are the digest of the input, which
/// they depend on alone; what the digest is, is not stated.
#[verifier::external_body]
fn blake3_hash(data: &[u8]) -> (r: [u8; 32])
    ensures
        r@ == blake3_digest(data@),
{
    *blake3::hash(data).as_bytes()
}

/// The sixteen lowercase hex digits.
pub open spec fn hex_digits() -> Seq<char> {
    seq!['0', '1', '2', '3', '4', '5', '6', '7', '8', '9', 'a', 'b', 'c', 'd', 'e', 'f']
}

/// Lowercase hex of a byte string, high nibble first (the form of
/// `blake3::Hash::to_hex`).
pub open spec fn hex(bytes: Seq<u8>) -> Seq<char>
    decreases bytes.len(),
{
    if bytes.len() == 0 {
        Seq::empty()
    } else {
        let b = bytes.last();
        hex(bytes.drop_last()) + seq![hex_digits()[(b / 16) as int], hex_digits()[(b % 16) as int]]
    }
}

/// The first sixteen hex digits of a digest: the hex of its first 8 bytes.
pub open spec fn short_hex_of(digest: Seq<u8>) -> Seq<char> {
    hex(digest.take(8))
}

/// The revision of a document whose canonical serialization is `canonical`.
pub open spec fn rev_of(canonical: Seq<u8>) -> Seq<char> {
    short_hex_of(blake3_digest(canonical))
}

/// The 8 little-endian bytes of a counter.
pub open spec fn le_bytes(c: u64) -> Seq<u8> {
    Seq::new(8, |i: int| (c >> ((8 * i) as u64)) as u8)
}

/// The id that the counter `k` proposes for the seed `seed`: the short hex
/// of the digest of the seed followed by the counter's little-endian bytes.
pub open spec fn candidate_id(seed: Seq<u8>, k: u64) -> Seq<char> {
    short_hex_of(blake3_digest(seed + le_bytes(k)))
}

/// Some node or some edge of the canvas already has this id.
pub open spec fn is_taken(c: CanvasView, id: Seq<char>) -> bool {
    c.has_node(id) || c.has_edge(id)
}

/// `k` is the first counter whose candidate id is free in `c`.
pub open spec fn first_free_counter(c: CanvasView, seed: Seq<u8>, k: u64) -> bool {
    &&& !is_taken(c, candidate_id(seed, k))
    &&& forall|j: u64| j < k ==> is_taken(c, #[trigger] candidate_id(seed, j))
}

/// The same document and seed always give the same fresh id: there is only
/// one first free counter, so the id `fresh_id` returns is determined.
pub proof fn law_fresh_id_is_determined(c: CanvasView, seed: Seq<u8>, k1: u64, k2: u64)
    requires
        first_free_counter(c, seed, k1),
        first_free_counter(c, seed, k2),
    ensures
        k1 == k2,
        candidate_id(seed, k1) == candidate_id(seed, k2),
{
    if k1 < k2 {
        assert(is_taken(c, candidate_id(seed, k1)));
    }
    if k2 < k1 {
        assert(is_taken(c, candidate_id(seed, k2)));
    }
}

/// Every character is a lowercase hex digit.
pub open spec fn is_lower_hex(s: Seq<char>) -> bool {
    forall|i: int| 0 <= i < s.len() ==> hex_digits().contains(#[trigger] s[i])
}

/// Hex has two digits per byte, all of them lowercase hex digits.
pub proof fn lemma_hex_shape(bytes: Seq<u8>)
    ensures
        hex(bytes).len() == 2 * bytes.len(),
        is_lower_hex(hex(bytes)),
    decreases bytes.len(),
{
    if bytes.len() > 0 {
        let b = bytes.last();
        lemma_hex_shape(bytes.drop_last());
        let h = hex(bytes);
        let p = hex(bytes.drop_last());
        assert forall|i: int| 0 <= i < h.len() implies hex_digits().contains(#[trigger] h[i]) by {
            if i < p.len() {
                assert(h[i] == p[i]);
            } else if i == p.len() {
                assert(h[i] == hex_digits()[(b / 16) as int]);
            } else {
                assert(h[i] == hex_digits()[(b % 16) as int]);
            }
        }
    }
}

/// Hex spells each byte, in order, as two digits: the digit of its high
/// nibble at position `2 * i`, then the digit of its low nibble.
pub proof fn law_hex_spells_each_byte(bytes: Seq<u8>)
    ensures
        hex(bytes).len() == 2 * bytes.len(),
        forall|i: int|
            0 <= i < bytes.len() ==> hex(bytes)[2 * i] == hex_digits()[(#[trigger] bytes[i] / 16) as int]
                && hex(bytes)[2 * i + 1] == hex_digits()[(bytes[i] % 16) as int],
    decreases bytes.len(),
{
    if bytes.len() > 0 {
        let prev = bytes.drop_last();
        law_hex_spells_each_byte(prev);
        let h = hex(bytes);
        let p = hex(prev);
        assert forall|i: int| 0 <= i < bytes.len() implies h[2 * i] == hex_digits()[(
        #[trigger] bytes[i] / 16) as int] && h[2 * i + 1] == hex_digits()[(bytes[i] % 16) as int] by {
            if i < prev.len() {
                assert(prev[i] == bytes[i]);
                assert(h[2 * i] == p[2 * i]);
                assert(h[2 * i + 1] == p[2 * i + 1]);
            }
        }
    }
}

/// A revision or an id is sixteen lowercase hex digits.
pub proof fn lemma_short_hex_shape(digest: Seq<u8>)
    requires
        digest.len() >= 8,
    ensures
        short_hex_of(digest).len() == 16,
        is_lower_hex(short_hex_of(digest)),
{
    lemma_hex_shape(digest.take(8));
}

/// The hex digit for a nibble, as a one-character string.
pub(crate) fn hex_digit(n: u8) -> (r: &'static str)
    requires
        n < 16,
    ensures
        r@ == seq![hex_digits()[n as int]],
{
    proof {
        reveal_strlit("0");
        reveal_strlit("1");
        reveal_strlit("2");
        reveal_strlit("3");
        reveal_strlit("4");
        reveal_strlit("5");
        reveal_strlit("6");
        reveal_strlit("7");
        reveal_strlit("8");
        reveal_strlit("9");
        reveal_strlit("a");
        reveal_strlit("b");
        reveal_strlit("c");
        reveal_strlit("d");
        reveal_strlit("e");
        reveal_strlit("f");
    }
    let r = match n {
        0 => "0",
        1 => "1",
        2 => "2",
        3 => "3",
        4 => "4",
        5 => "5",
        6 => "6",
        7 => "7",
        8 => "8",
        9 => "9",
        10 => "a",
        11 => "b",
        12 => "c",
        13 => "d",
        14 => "e",
        _ => "f",
    };
    assert(r@ =~= seq![hex_digits()[n as int]]);
    r
}

/// The first sixteen lowercase hex digits of a digest.
pub fn short_hex(digest: &[u8]) -> (r: String)
    requires
        digest@.len() >= 8,
    ensures
        r@ == short_hex_of(digest@),
        r@.len() == 16,
        is_lower_hex(r@),
{
    let mut r = String::new();
    let mut i: usize = 0;
    while i < 8
        invariant
            i <= 8 <= digest@.len(),
            r@ == hex(digest@.take(i as int)),
        decreases 8 - i,
    {
        let b = digest[i];
        assert(digest@.take(i + 1).drop_last() =~= digest@.take(i as int));
        assert(digest@.take(i + 1).last() == b);
        r.append(hex_digit(b / 16));
        r.append(hex_digit(b % 16));
        assert(r@ =~= hex(digest@.take(i + 1)));
        i += 1;
    }
    proof {
        lemma_short_hex_shape(digest@);
    }
    r
}

/// The revision of a document: the first sixteen lowercase hex digits of the
/// BLAKE3 digest of its canonical serialization. Equal canonical forms give
/// equal revisions.
pub fn rev(canonical: &[u8]) -> (r: String)
    ensures
        r@ == rev_of(canonical@),
        r@.len() == 16,
        is_lower_hex(r@),
{
    let digest = blake3_hash(canonical);
    short_hex(digest.as_slice())
}

/// The message hashed for counter `counter`: the seed, then the counter's
/// 8 little-endian bytes.
fn candidate_message(seed: &[u8], counter: u64) -> (r: Vec<u8>)
    ensures
        r@ == seed@ + le_bytes(counter),
{
    let mut msg: Vec<u8> = Vec::new();
    let mut i: usize = 0;
    while i < seed.len()
        invariant
            i <= seed@.len(),
            msg@ == seed@.take(i as int),
        decreases seed@.len() - i,
    {
        msg.push(seed[i]);
        assert(msg@ =~= seed@.take(i + 1));
        i += 1;
    }
    assert(seed@.take(seed@.len() as int) =~= seed@);
    let mut k: u64 = 0;
    while k < 8
        invariant
            k <= 8,
            msg@ == seed@ + le_bytes(counter).take(k as int),
        decreases 8 - k,
    {
        msg.push((counter >> (8 * k)) as u8);
        assert(msg@ =~= seed@ + le_bytes(counter).take(k + 1));
        k += 1;
    }
    assert(le_bytes(counter).take(8) =~= le_bytes(counter));
    msg
}

/// Whether some node or edge of the canvas already has this id.
fn id_is_taken(canvas: &Canvas, id: &String) -> (r: bool)
    ensures
        r == is_taken(canvas@, id@),
{
    has_node_id(&canvas.nodes, id) || has_edge_id(&canvas.edges, id)
}

/// Walks the counters from 0 upwards and returns the first candidate id
/// that no node or edge has, or `None` when every counter's id is taken.
pub fn try_fresh_id(canvas: &Canvas, seed: &[u8]) -> (r: Option<String>)
    ensures
        match r {
            Some(id) => (exists|k: u64|
                first_free_counter(canvas@, seed@, k) && id@ == #[trigger] candidate_id(seed@, k))
                && id@.len() == 16 && is_lower_hex(id@),
            None => forall|k: u64| is_taken(canvas@, #[trigger] candidate_id(seed@, k)),
        },
{
    let mut counter: u64 = 0;
    loop
        invariant
            forall|j: u64| j < counter ==> is_taken(canvas@, #[trigger] candidate_id(seed@, j)),
        decreases u64::MAX - counter,
    {
        let msg = candidate_message(seed, counter);
        let digest = blake3_hash(msg.as_slice());
        let id = short_hex(digest.as_slice());
        if !id_is_taken(canvas, &id) {
            assert(first_free_counter(canvas@, seed@, counter));
            return Some(id);
        }
        if counter == u64::MAX {
            assert forall|k: u64| is_taken(canvas@, #[trigger] candidate_id(seed@, k)) by {
                if k < counter {
                } else {
                    assert(k == counter);
                }
            }
            return None;
        }
        counter += 1;
    }
}

/// A new id that no node or edge of the canvas has: the candidate of the
/// first counter (0, 1, 2, ...) whose candidate is free. The same seed and
/// the same document give the same id. Meant for the case where some counter
/// is free, which a 64-bit counter space leaves the only practical one.
pub fn fresh_id(canvas: &Canvas, seed: &[u8]) -> (r: String)
    requires
        exists|k: u64| !is_taken(canvas@, #[trigger] candidate_id(seed@, k)),
    ensures
        exists|k: u64| first_free_counter(canvas@, seed@, k) && r@ == #[trigger] candidate_id(seed@, k),
        !is_taken(canvas@, r@),
        r@.len() == 16,
        is_lower_hex(r@),
{
    match try_fresh_id(canvas, seed) {
        Some(id) => id,
        None => {
            proof {
                let k = choose|k: u64| !is_taken(canvas@, #[trigger] candidate_id(seed@, k));
                assert(is_taken(canvas@, candidate_id(seed@, k)));
            }
            unreached()
        },
    }
}

} // verus!
