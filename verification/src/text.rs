//! Character-level string logic: suffix matching for filetype tests and the
//! file-stem rule used to name object files.

use vstd::prelude::*;

verus! {

/// `suf` is a suffix of `s`.
pub open spec fn is_suffix_of(suf: Seq<char>, s: Seq<char>) -> bool {
    suf.len() <= s.len() && s.skip(s.len() - suf.len()) == suf
}

/// Where the stem of a file name ends, scanning the last `i` characters for
/// a dot: the largest index `j` with `1 <= j < i` and `s[j] == '.'`, else
/// `s.len()`.
pub open spec fn stem_cut_upto(s: Seq<char>, i: int) -> int
    decreases i,
{
    if i <= 1 {
        s.len() as int
    } else if s[i - 1] == '.' {
        i - 1
    } else {
        stem_cut_upto(s, i - 1)
    }
}

/// Where the stem of a file name ends: at the final dot, unless the only dot
/// is the leading character or there is none, in which case the whole name is
/// the stem.
pub open spec fn stem_cut(s: Seq<char>) -> int {
    stem_cut_upto(s, s.len() as int)
}

/// The stem of a file name: the name without its final extension.  A name
/// without a dot, or whose only dot leads it, is its own stem.
pub open spec fn stem_of(s: Seq<char>) -> Seq<char> {
    s.take(stem_cut(s))
}

pub proof fn lemma_stem_cut_upto_bounds(s: Seq<char>, i: int)
    requires
        i <= s.len(),
    ensures
        stem_cut_upto(s, i) <= s.len(),
        i >= 0 ==> stem_cut_upto(s, i) >= 0,
    decreases i,
{
    if i > 1 {
        lemma_stem_cut_upto_bounds(s, i - 1);
    }
}

/// Whether `suf` ends `s`, compared character by character.
pub fn str_ends_with(s: &str, suf: &str) -> (r: bool)
    ensures
        r == is_suffix_of(suf@, s@),
{
    let n: usize = s.unicode_len();
    let m: usize = suf.unicode_len();
    if m > n {
        return false;
    }
    let mut i: usize = 0;
    while i < m
        invariant
            m <= n,
            n == s@.len(),
            m == suf@.len(),
            i <= m,
            forall|k: int| 0 <= k < i ==> s@[n - m + k] == suf@[k],
        decreases m - i,
    {
        if s.get_char(n - m + i) != suf.get_char(i) {
            assert(s@.skip(n - m as int)[i as int] != suf@[i as int]);
            return false;
        }
        i = i + 1;
    }
    proof {
        assert(s@.skip(n - m as int) =~= suf@);
    }
    true
}

/// The length of the stem of `s`: the position of the final dot, except that
/// a leading dot alone does not cut a stem.
pub fn stem_len(s: &str) -> (r: usize)
    ensures
        r == stem_cut(s@),
        r <= s@.len(),
{
    let n: usize = s.unicode_len();
    let mut i: usize = n;
    proof {
        lemma_stem_cut_upto_bounds(s@, n as int);
    }
    while i > 1
        invariant
            i <= n,
            n == s@.len(),
            stem_cut_upto(s@, n as int) == stem_cut_upto(s@, i as int),
        decreases i,
    {
        if s.get_char(i - 1) == '.' {
            return i - 1;
        }
        i = i - 1;
    }
    n
}

/// The object-file name for a source file: the stem followed by `.o`.
pub fn object_name(file_name: &str) -> (r: String)
    ensures
        r@ == stem_of(file_name@) + (".o")@,
{
    let cut: usize = stem_len(file_name);
    let stem = file_name.substring_char(0, cut);
    proof {
        assert(stem@ =~= stem_of(file_name@));
    }
    let r = stem.to_owned().concat(".o");
    r
}

} // verus!
