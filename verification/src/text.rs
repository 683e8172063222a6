//! Tests on how a string begins and ends.

use vstd::prelude::*;

verus! {

/// Whether `part` stands in `text` from character `at` on.
fn stands_at(text: &str, part: &str, at: usize) -> (found: bool)
    requires
        at + part@.len() <= text@.len(),
    ensures
        found == (text@.subrange(at as int, at + part@.len()) == part@),
{
    let len = text.unicode_len();
    let n = part.unicode_len();
    let mut i: usize = 0;
    while i < n
        invariant
            n == part@.len(),
            len == text@.len(),
            at + n <= len,
            i <= n,
            forall|k: int| 0 <= k < i ==> text@[at + k] == part@[k],
        decreases n - i,
    {
        if text.get_char(at + i) != part.get_char(i) {
            assert(text@.subrange(at as int, at + part@.len())[i as int] != part@[i as int]);
            return false;
        }
        i += 1;
    }
    assert(text@.subrange(at as int, at + part@.len()) =~= part@);
    true
}

/// Whether a string begins with `prefix`.
pub(crate) fn starts_with(text: &str, prefix: &str) -> (found: bool)
    ensures
        found == prefix@.is_prefix_of(text@),
{
    let len = text.unicode_len();
    prefix.unicode_len() <= len && stands_at(text, prefix, 0)
}

/// Whether a string ends in `suffix`.
pub(crate) fn ends_with(text: &str, suffix: &str) -> (found: bool)
    ensures
        found == suffix@.is_suffix_of(text@),
{
    let len = text.unicode_len();
    let n = suffix.unicode_len();
    n <= len && stands_at(text, suffix, len - n)
}

} // verus!
