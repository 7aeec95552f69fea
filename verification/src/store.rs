//! The rules of the space store that do not touch the file system.
use vstd::prelude::*;

verus! {

#[verifier::external_type_specification]
#[verifier::external_body]
pub struct ExJsonError(serde_json::Error);

#[verifier::external_type_specification]
#[verifier::external_body]
pub struct ExIoError(std::io::Error);

/// Why the store could not hand out or read a space.
#[derive(Debug)]
pub enum StoreError {
    /// The id is not a single, visible file-name component.
    BadId(String),
    /// No file holds a space of that id.
    NotFound(String),
    /// The space's file is not valid JSON Canvas.
    Parse { id: String, source: serde_json::Error },
    /// Reading or writing the space's files failed.
    Io(std::io::Error),
}

impl StoreError {
    /// The HTTP status the error is answered with: a refused id is the
    /// caller's mistake (400), a missing space is 404, and a corrupt file or
    /// a failed read or write is the server's (500).
    pub fn status(&self) -> (r: u16)
        ensures
            self is BadId ==> r == 400,
            self is NotFound ==> r == 404,
            (self is Parse || self is Io) ==> r == 500,
    {
        match self {
            StoreError::BadId(_) => 400,
            StoreError::NotFound(_) => 404,
            StoreError::Parse { .. } => 500,
            StoreError::Io(_) => 500,
        }
    }
}

/// A usable space id is one visible file-name component: not empty, not
/// starting with a dot, and with no path separator of either kind.
pub open spec fn usable_id(id: Seq<char>) -> bool {
    &&& id.len() > 0
    &&& id[0] != '.'
    &&& forall|i: int| 0 <= i < id.len() ==> #[trigger] id[i] != '/' && id[i] != '\\'
}

/// The path-traversal boundary: accepts exactly the ids that name one
/// visible file in the store's directory, and refuses any other with
/// `BadId` naming it.
pub fn validate_id(id: &str) -> (r: Result<(), StoreError>)
    ensures
        r is Ok <==> usable_id(id@),
        r is Err ==> (r matches Err(StoreError::BadId(s)) && s@ == id@),
{
    let mut ok = !id.is_empty();
    let mut first = true;
    for c in it: id.chars()
        invariant
            it.seq() == id@,
            first == (it.index() == 0),
            ok == (id@.len() > 0 && (it.index() > 0 ==> id@[0] != '.') && forall|k: int|
                0 <= k < it.index() ==> #[trigger] id@[k] != '/' && id@[k] != '\\'),
    {
        if (first && c == '.') || c == '/' || c == '\\' {
            ok = false;
        }
        first = false;
    }
    if ok {
        Ok(())
    } else {
        Err(StoreError::BadId(id.to_owned()))
    }
}

/// The suffix of a space's file name.
pub open spec fn canvas_suffix() -> Seq<char> {
    seq!['.', 'c', 'a', 'n', 'v', 'a', 's']
}

/// The space id a file name stands for: the stem of a name whose extension
/// is `canvas` (so `a.canvas` is `a`, while `.canvas`, `a.canvas.tmp` and
/// `notes.md` stand for none).
pub open spec fn space_id_of(name: Seq<char>) -> Option<Seq<char>> {
    if name.len() > 7 && name.skip(name.len() - 7) == canvas_suffix() {
        Some(name.take(name.len() - 7))
    } else {
        None
    }
}

/// The space ids of the file names, in the order of the names.
pub open spec fn space_ids_of(names: Seq<Seq<char>>) -> Seq<Seq<char>>
    decreases names.len(),
{
    if names.len() == 0 {
        Seq::empty()
    } else {
        let rest = space_ids_of(names.drop_last());
        match space_id_of(names.last()) {
            Some(id) => rest.push(id),
            None => rest,
        }
    }
}

/// The views of a sequence of strings.
pub open spec fn views(v: Seq<String>) -> Seq<Seq<char>> {
    v.map_values(|s: String| s@)
}

/// Lexicographic order on byte strings (a prefix comes first).
pub open spec fn bytes_le(a: Seq<u8>, b: Seq<u8>) -> bool
    decreases a.len(),
{
    if a.len() == 0 {
        true
    } else if b.len() == 0 {
        false
    } else if a[0] != b[0] {
        a[0] < b[0]
    } else {
        bytes_le(a.drop_first(), b.drop_first())
    }
}

/// The order of `str`: lexicographic on the UTF-8 bytes.
pub open spec fn str_le(a: Seq<char>, b: Seq<char>) -> bool {
    bytes_le(vstd::utf8::encode_utf8(a), vstd::utf8::encode_utf8(b))
}

/// Every string comes no later than the ones after it.
pub open spec fn sorted_strs(s: Seq<Seq<char>>) -> bool {
    forall|i: int, j: int| 0 <= i < j < s.len() ==> str_le(#[trigger] s[i], #[trigger] s[j])
}

/// Any two byte strings are ordered one way or the other.
pub proof fn lemma_bytes_le_total(a: Seq<u8>, b: Seq<u8>)
    ensures
        bytes_le(a, b) || bytes_le(b, a),
    decreases a.len(),
{
    if a.len() > 0 && b.len() > 0 && a[0] == b[0] {
        lemma_bytes_le_total(a.drop_first(), b.drop_first());
    }
}

/// Every byte string comes no later than itself.
pub proof fn lemma_bytes_le_reflexive(a: Seq<u8>)
    ensures
        bytes_le(a, a),
    decreases a.len(),
{
    if a.len() > 0 {
        lemma_bytes_le_reflexive(a.drop_first());
    }
}

/// The order is transitive.
pub proof fn lemma_bytes_le_transitive(a: Seq<u8>, b: Seq<u8>, c: Seq<u8>)
    requires
        bytes_le(a, b),
        bytes_le(b, c),
    ensures
        bytes_le(a, c),
    decreases a.len(),
{
    if a.len() > 0 && b.len() > 0 && c.len() > 0 && a[0] == b[0] && b[0] == c[0] {
        lemma_bytes_le_transitive(a.drop_first(), b.drop_first(), c.drop_first());
    }
}

/// Compares two byte strings in lexicographic order.
fn bytes_le_exec(a: &[u8], b: &[u8]) -> (r: bool)
    ensures
        r == bytes_le(a@, b@),
{
    let mut i: usize = 0;
    assert(a@.skip(0) =~= a@ && b@.skip(0) =~= b@);
    while i < a.len() && i < b.len()
        invariant
            i <= a@.len(),
            i <= b@.len(),
            bytes_le(a@, b@) == bytes_le(a@.skip(i as int), b@.skip(i as int)),
        decreases a@.len() - i,
    {
        if a[i] != b[i] {
            return a[i] < b[i];
        }
        assert(a@.skip(i as int).drop_first() =~= a@.skip(i + 1));
        assert(b@.skip(i as int).drop_first() =~= b@.skip(i + 1));
        i += 1;
    }
    i == a.len()
}

/// The order of `str` on two strings.
fn str_le_exec(a: &String, b: &String) -> (r: bool)
    ensures
        r == str_le(a@, b@),
{
    bytes_le_exec(a.as_str().as_bytes(), b.as_str().as_bytes())
}

/// The space id that a file name stands for, if any.
fn space_id(name: &String) -> (r: Option<String>)
    ensures
        match r {
            Some(id) => space_id_of(name@) == Some(id@),
            None => space_id_of(name@) is None,
        },
{
    let s = name.as_str();
    let n = s.unicode_len();
    if n <= 7 {
        return None;
    }
    let suffix = ".canvas";
    proof {
        reveal_strlit(".canvas");
    }
    let mut k: usize = 0;
    while k < 7
        invariant
            n == name@.len(),
            s@ == name@,
            n > 7,
            suffix@ == canvas_suffix(),
            k <= 7,
            forall|j: int| 0 <= j < k ==> name@[n - 7 + j] == canvas_suffix()[j],
        decreases 7 - k,
    {
        if s.get_char(n - 7 + k) != suffix.get_char(k) {
            assert(name@.skip(n - 7)[k as int] != canvas_suffix()[k as int]);
            return None;
        }
        k += 1;
    }
    assert(name@.skip(n - 7) =~= canvas_suffix());
    Some(s.substring_char(0, n - 7).to_owned())
}

/// The space ids of a directory's file names (the stems of the `*.canvas`
/// names), sorted in the order of `str` so that listings are stable.
pub fn space_ids(file_names: &Vec<String>) -> (r: Vec<String>)
    ensures
        sorted_strs(views(r@)),
        views(r@).to_multiset() == space_ids_of(views(file_names@)).to_multiset(),
{
    broadcast use vstd::seq_lib::group_to_multiset_ensures;

    let mut ids: Vec<String> = Vec::new();
    let mut i: usize = 0;
    while i < file_names.len()
        invariant
            i <= file_names@.len(),
            sorted_strs(views(ids@)),
            views(ids@).to_multiset() == space_ids_of(views(file_names@.take(i as int))).to_multiset(),
        decreases file_names@.len() - i,
    {
        let ghost names = views(file_names@.take(i + 1));
        assert(names.drop_last() =~= views(file_names@.take(i as int)));
        assert(names.last() == file_names@[i as int]@);
        let ghost prev_ids = views(ids@);
        match space_id(&file_names[i]) {
            None => {
                assert(space_ids_of(names) == space_ids_of(names.drop_last()));
            },
            Some(id) => {
                let mut p: usize = 0;
                while p < ids.len() && str_le_exec(&ids[p], &id)
                    invariant
                        p <= ids@.len(),
                        forall|k: int| 0 <= k < p ==> str_le(#[trigger] ids@[k]@, id@),
                    decreases ids@.len() - p,
                {
                    p += 1;
                }
                let ghost old_ids = views(ids@);
                proof {
                    if p < ids@.len() {
                        lemma_bytes_le_total(
                            vstd::utf8::encode_utf8(ids@[p as int]@),
                            vstd::utf8::encode_utf8(id@),
                        );
                    }
                }
                ids.insert(p, id);
                proof {
                    let v = views(ids@);
                    assert(v =~= old_ids.insert(p as int, id@));
                    assert forall|a: int, b: int| 0 <= a < b < v.len() implies str_le(
                        #[trigger] v[a],
                        #[trigger] v[b],
                    ) by {
                        if a < p && b == p {
                            assert(v[a] == old_ids[a]);
                        } else if a == p && b > p {
                            assert(v[b] == old_ids[b - 1]);
                            if b - 1 == p {
                                lemma_bytes_le_reflexive(vstd::utf8::encode_utf8(old_ids[b - 1]));
                            } else {
                                assert(str_le(old_ids[p as int], old_ids[b - 1]));
                            }
                            lemma_bytes_le_transitive(
                                vstd::utf8::encode_utf8(id@),
                                vstd::utf8::encode_utf8(old_ids[p as int]),
                                vstd::utf8::encode_utf8(old_ids[b - 1]),
                            );
                        } else if a < p && b > p {
                            assert(v[a] == old_ids[a] && v[b] == old_ids[b - 1]);
                        } else if b < p {
                            assert(v[a] == old_ids[a] && v[b] == old_ids[b]);
                        } else {
                            assert(v[a] == old_ids[a - 1] && v[b] == old_ids[b - 1]);
                        }
                    }
                    assert(v.remove(p as int) =~= old_ids);
                    assert(v[p as int] == id@);
                    v.to_multiset_ensures();
                    assert(v.remove(p as int).to_multiset() =~= v.to_multiset().remove(v[p as int]));
                    assert(v.contains(id@));
                    assert(v.to_multiset().count(id@) > 0);
                    assert(v.to_multiset() =~= old_ids.to_multiset().insert(id@));
                    assert(space_ids_of(names) == space_ids_of(names.drop_last()).push(id@));
                    space_ids_of(names.drop_last()).to_multiset_ensures();
                    assert(space_ids_of(names).to_multiset() =~= space_ids_of(
                        names.drop_last(),
                    ).to_multiset().insert(id@));
                }
            },
        }
        i += 1;
    }
    assert(file_names@.take(file_names@.len() as int) =~= file_names@);
    ids
}

} // verus!
