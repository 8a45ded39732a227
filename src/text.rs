//! Character-level helpers on strings.
use vstd::prelude::*;

verus! {

/// No character of `s` is a dot.
pub open spec fn no_dot(s: Seq<char>) -> bool {
    forall|i: int| 0 <= i < s.len() ==> s[i] != '.'
}

/// Whether `s` holds `pat` right before position `end`.
pub fn ends_with_at(s: &str, end: usize, pat: &str) -> (r: bool)
    requires
        end <= s@.len(),
    ensures
        r == (pat@.len() <= end && s@.subrange(end - pat@.len(), end as int) == pat@),
{
    let n = pat.unicode_len();
    if n > end {
        return false;
    }
    let start = end - n;
    let mut i: usize = 0;
    while i < n
        invariant
            n == pat@.len(),
            start + n == end,
            end <= s@.len(),
            i <= n,
            forall|k: int| 0 <= k < i ==> s@[start + k] == pat@[k],
        decreases n - i,
    {
        if s.get_char(start + i) != pat.get_char(i) {
            assert(s@.subrange(start as int, end as int)[i as int] != pat@[i as int]);
            return false;
        }
        i = i + 1;
    }
    assert(s@.subrange(start as int, end as int) =~= pat@);
    true
}

/// Whether `s` starts with `pat`.
pub fn starts_with(s: &str, pat: &str) -> (r: bool)
    ensures
        r == (pat@.len() <= s@.len() && s@.subrange(0, pat@.len() as int) == pat@),
{
    let n = pat.unicode_len();
    let m = s.unicode_len();
    if n > m {
        return false;
    }
    let mut i: usize = 0;
    while i < n
        invariant
            n == pat@.len(),
            n <= s@.len(),
            i <= n,
            forall|k: int| 0 <= k < i ==> s@[k] == pat@[k],
        decreases n - i,
    {
        if s.get_char(i) != pat.get_char(i) {
            assert(s@.subrange(0, n as int)[i as int] != pat@[i as int]);
            return false;
        }
        i = i + 1;
    }
    assert(s@.subrange(0, n as int) =~= pat@);
    true
}

/// The characters of `s`, in one pass.
pub fn chars_of(s: &str) -> (r: Vec<char>)
    ensures
        r@ == s@,
{
    let mut v: Vec<char> = Vec::new();
    for c in it: s.chars()
        invariant
            v@ == it.seq().take(it.index() as int),
    {
        v.push(c);
    }
    v
}

} // verus!
