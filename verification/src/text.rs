//! Substring search over text.
use vstd::prelude::*;

use crate::decimal::chars_of;

verus! {

/// `needle` occurs in `hay` (the empty needle occurs everywhere).
pub open spec fn text_contains(hay: Seq<char>, needle: Seq<char>) -> bool {
    exists|i: int|
        0 <= i && i + needle.len() <= hay.len() && #[trigger] hay.subrange(i, i + needle.len())
            == needle
}

/// Whether `n` occurs in `h` starting at `i`.
fn occurs_at(h: &Vec<char>, n: &Vec<char>, i: usize) -> (r: bool)
    requires
        i + n@.len() <= h@.len(),
    ensures
        r == (h@.subrange(i as int, i + n@.len()) == n@),
{
    let len = n.len();
    let mut j: usize = 0;
    while j < len
        invariant
            len == n@.len(),
            i + len <= h@.len(),
            h@.len() == h.len(),
            j <= len,
            forall|k: int| 0 <= k < j ==> h@[i + k] == n@[k],
        decreases len - j,
    {
        if h[i + j] != n[j] {
            proof {
                assert(h@.subrange(i as int, i + len)[j as int] != n@[j as int]);
            }
            return false;
        }
        j = j + 1;
    }
    assert(h@.subrange(i as int, i + len) =~= n@);
    true
}

/// Whether `needle` occurs in `hay`, as `str::contains` answers for a
/// pattern string.
pub fn contains_text(hay: &str, needle: &str) -> (r: bool)
    ensures
        r == text_contains(hay@, needle@),
{
    let h = chars_of(hay);
    let n = chars_of(needle);
    if n.len() > h.len() {
        return false;
    }
    let last = h.len() - n.len();
    let mut i: usize = 0;
    while i < last
        invariant
            h@ == hay@,
            n@ == needle@,
            last == h@.len() - n@.len(),
            n@.len() <= h@.len(),
            forall|k: int| 0 <= k < i ==> #[trigger] h@.subrange(k, k + n@.len()) != n@,
        decreases last - i,
    {
        if occurs_at(&h, &n, i) {
            return true;
        }
        i = i + 1;
    }
    occurs_at(&h, &n, last)
}

} // verus!
