//! Port classifier: decides from the path string alone whether an
//! endpoint is a pseudo-terminal (virtual) or a real serial device.

use vstd::prelude::*;

verus! {

/// `p` occurs in `s` starting at position `i`.
pub open spec fn is_substring_at(p: Seq<char>, s: Seq<char>, i: int) -> bool {
    0 <= i && i + p.len() <= s.len() && s.subrange(i, i + p.len() as int) == p
}

/// `p` occurs somewhere in `s`.
pub open spec fn has_substring(p: Seq<char>, s: Seq<char>) -> bool {
    exists|i: int| is_substring_at(p, s, i)
}

/// A path names a pseudo-terminal endpoint exactly when it contains one
/// of the three fixed markers used by the supported platforms.
pub open spec fn is_virtual_path(s: Seq<char>) -> bool {
    has_substring("/ttys"@, s) || has_substring("/ptyp"@, s) || has_substring("/pts/"@, s)
}

/// Whether `p` occurs in `s` at position `i` (both lengths given by the caller).
pub(crate) fn matches_at(s: &str, s_len: usize, p: &str, p_len: usize, i: usize) -> (r: bool)
    requires
        s_len == s@.len(),
        p_len == p@.len(),
        i + p_len <= s_len,
    ensures
        r == is_substring_at(p@, s@, i as int),
{
    let mut j: usize = 0;
    while j < p_len
        invariant
            s_len == s@.len(),
            p_len == p@.len(),
            i + p_len <= s_len,
            0 <= j <= p_len,
            forall|k: int| 0 <= k < j ==> s@[i + k] == p@[k],
        decreases p_len - j,
    {
        if s.get_char(i + j) != p.get_char(j) {
            assert(s@.subrange(i as int, i + p@.len() as int)[j as int] != p@[j as int]);
            return false;
        }
        j = j + 1;
    }
    assert(s@.subrange(i as int, i + p@.len() as int) =~= p@);
    true
}

/// Whether `p` occurs anywhere in `s`.
fn contains_sub(s: &str, p: &str) -> (r: bool)
    ensures
        r == has_substring(p@, s@),
{
    let s_len = s.unicode_len();
    let p_len = p.unicode_len();
    if p_len > s_len {
        assert(forall|i: int| !is_substring_at(p@, s@, i));
        return false;
    }
    if p_len == 0 {
        assert(is_substring_at(p@, s@, 0)) by {
            assert(s@.subrange(0, 0) =~= p@);
        }
        return true;
    }
    let mut i: usize = 0;
    while i <= s_len - p_len
        invariant
            s_len == s@.len(),
            p_len == p@.len(),
            0 < p_len <= s_len,
            0 <= i <= s_len - p_len + 1,
            forall|k: int| 0 <= k < i ==> !is_substring_at(p@, s@, k),
        decreases s_len - p_len + 1 - i,
    {
        if matches_at(s, s_len, p, p_len, i) {
            return true;
        }
        i = i + 1;
    }
    assert(forall|k: int| is_substring_at(p@, s@, k) ==> 0 <= k <= s@.len() - p@.len());
    false
}

/// True iff the path contains one of the three fixed pseudo-terminal
/// markers; a pure, total function of the string alone.
pub fn is_virtual_port(path: &str) -> (r: bool)
    ensures
        r == is_virtual_path(path@),
{
    contains_sub(path, "/ttys") || contains_sub(path, "/ptyp") || contains_sub(path, "/pts/")
}

} // verus!
