//! Small helpers on text that the rest of the crate shares.

use vstd::prelude::*;
use vstd::utf8::{decode_utf8, valid_utf8};

verus! {

/// The character content of each string of `v`, in order.
pub open spec fn texts(v: Seq<String>) -> Seq<Seq<char>> {
    Seq::new(v.len(), |i: int| v[i]@)
}

/// Index of the first occurrence of `wanted` in `row`, or the length of `row`
/// if it holds none.
pub open spec fn first_index(row: Seq<Seq<char>>, wanted: Seq<char>) -> int
    decreases row.len(),
{
    if row.len() == 0 || row[0] == wanted {
        0
    } else {
        1 + first_index(row.skip(1), wanted)
    }
}

/// `first_index` is within the row or at its end, nothing before it is the
/// wanted text, and it holds the wanted text unless it is the end.
pub proof fn lemma_first_index(row: Seq<Seq<char>>, wanted: Seq<char>)
    ensures
        0 <= first_index(row, wanted) <= row.len(),
        forall|i: int| 0 <= i < first_index(row, wanted) ==> row[i] != wanted,
        first_index(row, wanted) < row.len() ==> row[first_index(row, wanted)] == wanted,
        first_index(row, wanted) < row.len() <==> row.contains(wanted),
    decreases row.len(),
{
    if row.len() == 0 || row[0] == wanted {
        if row.len() > 0 {
            assert(row[0] == wanted);
        }
    } else {
        let rest = row.skip(1);
        lemma_first_index(rest, wanted);
        assert forall|i: int| 0 <= i < first_index(row, wanted) implies row[i] != wanted by {
            if i > 0 {
                assert(row[i] == rest[i - 1]);
            }
        }
        if first_index(row, wanted) < row.len() {
            assert(row[first_index(row, wanted)] == rest[first_index(rest, wanted)]);
        }
        if row.contains(wanted) {
            let i = choose|i: int| 0 <= i < row.len() && row[i] == wanted;
            assert(rest[i - 1] == wanted);
        }
    }
}

/// Index of the first string of `row`, at or after `from`, that reads
/// `wanted`.
pub fn find_text(row: &Vec<String>, from: usize, wanted: &String) -> (found: Option<usize>)
    ensures
        match found {
            Some(p) => {
                &&& from <= p < row.len()
                &&& row[p as int]@ == wanted@
                &&& forall|t: int| from <= t < p ==> row[t]@ != wanted@
            },
            None => forall|t: int| from <= t < row.len() ==> row[t]@ != wanted@,
        },
{
    let mut p: usize = from;
    while p < row.len()
        invariant
            from <= p,
            forall|t: int| from <= t < p && t < row.len() ==> row[t]@ != wanted@,
        decreases row.len() - p,
    {
        if row[p] == *wanted {
            return Some(p);
        }
        p = p + 1;
    }
    None
}

/// Whether two lists of strings read the same, string by string.
pub fn same_texts(a: &Vec<String>, b: &Vec<String>) -> (same: bool)
    ensures
        same == (texts(a@) == texts(b@)),
{
    if a.len() != b.len() {
        assert(texts(a@).len() != texts(b@).len());
        return false;
    }
    let mut i: usize = 0;
    while i < a.len()
        invariant
            i <= a.len(),
            a.len() == b.len(),
            forall|t: int| 0 <= t < i ==> a[t]@ == b[t]@,
        decreases a.len() - i,
    {
        if a[i] != b[i] {
            assert(texts(a@)[i as int] != texts(b@)[i as int]);
            return false;
        }
        i = i + 1;
    }
    assert(texts(a@) =~= texts(b@));
    true
}

/// The text that `bytes` hold, where they are text in UTF-8.
///
/// Trusted: this is `core::str::from_utf8` of the standard library, which
/// accepts a slice exactly when it is valid UTF-8 and then hands the same
/// bytes back as a string slice. The contract says so over the definition of
/// UTF-8 that `vstd` gives.
#[verifier::external_body]
pub(crate) fn text_of_bytes(bytes: &[u8]) -> (text: Option<&str>)
    ensures
        match text {
            Some(s) => valid_utf8(bytes@) && s@ == decode_utf8(bytes@),
            None => !valid_utf8(bytes@),
        },
{
    match core::str::from_utf8(bytes) {
        Ok(text) => Some(text),
        Err(_) => None,
    }
}

} // verus!
