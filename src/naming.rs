//! Base names, extensions and output names of subtitle files.
use vstd::prelude::*;

verus! {

/// The first index at or after `i` that does not hold a dot (or the length).
pub open spec fn first_non_dot(s: Seq<char>, i: int) -> int
    decreases s.len() - i,
{
    if i >= s.len() {
        s.len() as int
    } else if s[i] != '.' {
        i
    } else {
        first_non_dot(s, i + 1)
    }
}

/// The first index at or after `i` that holds a dot (or the length).
pub open spec fn next_dot(s: Seq<char>, i: int) -> int
    decreases s.len() - i,
{
    if i >= s.len() {
        s.len() as int
    } else if s[i] == '.' {
        i
    } else {
        next_dot(s, i + 1)
    }
}

/// The base name of a file name: its first run of characters that are not
/// dots, so `movie.en.hi.srt` gives `movie`. None when the name is all dots.
pub open spec fn stem_spec(s: Seq<char>) -> Option<Seq<char>> {
    let a = first_non_dot(s, 0);
    if a >= s.len() {
        None
    } else {
        Some(s.subrange(a, next_dot(s, a)))
    }
}

/// The base name of the file name `name`, shared by all language variants
/// of one title: `movie.en.hi.srt` and `movie.ja.srt` both give `movie`.
pub fn base_file_stem(name: &str) -> (r: Option<String>)
    ensures
        match r {
            Some(t) => stem_spec(name@) == Some(t@),
            None => stem_spec(name@) is None,
        },
{
    let len = name.unicode_len();
    let mut a: usize = 0;
    while a < len && name.get_char(a) == '.'
        invariant
            len == name@.len(),
            a <= len,
            first_non_dot(name@, 0) == first_non_dot(name@, a as int),
        decreases len - a,
    {
        a = a + 1;
    }
    if a >= len {
        return None;
    }
    let mut b: usize = a;
    while b < len && name.get_char(b) != '.'
        invariant
            len == name@.len(),
            a <= b <= len,
            next_dot(name@, a as int) == next_dot(name@, b as int),
        decreases len - b,
    {
        b = b + 1;
    }
    Some(String::from_str(name.substring_char(a, b)))
}

/// The index of the last dot of `s` before `end`, or -1.
pub open spec fn last_dot_before(s: Seq<char>, end: int) -> int
    decreases end,
{
    if end <= 0 {
        -1
    } else if s[end - 1] == '.' {
        end - 1
    } else {
        last_dot_before(s, end - 1)
    }
}

/// The extension of a file name: what follows its last dot, where that dot
/// is not the first character; `..` has none.
pub open spec fn extension_spec(s: Seq<char>) -> Option<Seq<char>> {
    let d = last_dot_before(s, s.len() as int);
    if d <= 0 || s == seq!['.', '.'] {
        None
    } else {
        Some(s.subrange(d + 1, s.len() as int))
    }
}

proof fn lemma_last_dot_bounds(s: Seq<char>, end: int)
    requires
        end <= s.len(),
    ensures
        -1 <= last_dot_before(s, end) < end || (end <= 0 && last_dot_before(s, end) == -1),
    decreases end,
{
    if end > 0 && s[end - 1] != '.' {
        lemma_last_dot_bounds(s, end - 1);
    }
}

/// The extension of the file name `name`, as `extension_spec` defines it.
pub fn file_extension(name: &str) -> (r: Option<String>)
    ensures
        match r {
            Some(e) => extension_spec(name@) == Some(e@),
            None => extension_spec(name@) is None,
        },
{
    let len = name.unicode_len();
    let mut end: usize = len;
    while end > 0 && name.get_char(end - 1) != '.'
        invariant
            len == name@.len(),
            end <= len,
            last_dot_before(name@, len as int) == last_dot_before(name@, end as int),
        decreases end,
    {
        end = end - 1;
    }
    proof {
        lemma_last_dot_bounds(name@, len as int);
    }
    if end <= 1 {
        return None;
    }
    if len == 2 && name.get_char(0) == '.' && name.get_char(1) == '.' {
        assert(name@ =~= seq!['.', '.']);
        return None;
    }
    assert(name@ != seq!['.', '.']) by {
        if name@ == seq!['.', '.'] {
            assert(name@[0] == '.' && name@[1] == '.');
        }
    }
    Some(String::from_str(name.substring_char(end, len)))
}

/// The name of a merged file: the base name with the output extension, or
/// the base name alone when that extension is empty.
pub open spec fn output_name_spec(stem: Seq<char>, out_ext: Seq<char>) -> Seq<char> {
    if out_ext.len() == 0 {
        stem
    } else {
        stem + seq!['.'] + out_ext
    }
}

/// The file name that the merge of a pair with base name `stem` is written to.
pub fn output_file_name(stem: &str, out_ext: &str) -> (r: String)
    ensures
        r@ == output_name_spec(stem@, out_ext@),
{
    let mut r = String::from_str(stem);
    if out_ext.unicode_len() > 0 {
        r.append(".");
        proof {
            reveal_strlit(".");
        }
        r.append(out_ext);
    }
    r
}

/// ASCII letters compare without regard to case.
pub open spec fn fold_char(c: char) -> int {
    if 'A' <= c && c <= 'Z' {
        c as int + 32
    } else {
        c as int
    }
}

/// The number that `fold_char` gives.
pub fn fold_ascii(c: char) -> (r: u32)
    ensures
        r as int == fold_char(c),
{
    if 'A' <= c && c <= 'Z' {
        c as u32 + 32
    } else {
        c as u32
    }
}

/// `a` and `b` are equal but for the case of ASCII letters.
pub open spec fn eq_ignore_case(a: Seq<char>, b: Seq<char>) -> bool {
    a.len() == b.len() && forall|i: int| 0 <= i < a.len() ==> fold_char(a[i]) == fold_char(b[i])
}

/// Whether `a` and `b` are equal but for the case of ASCII letters.
pub fn equals_ignore_case(a: &str, b: &str) -> (r: bool)
    ensures
        r == eq_ignore_case(a@, b@),
{
    let n = a.unicode_len();
    if n != b.unicode_len() {
        return false;
    }
    let mut i: usize = 0;
    while i < n
        invariant
            n == a@.len(),
            n == b@.len(),
            i <= n,
            forall|k: int| 0 <= k < i ==> fold_char(a@[k]) == fold_char(b@[k]),
        decreases n - i,
    {
        let x = a.get_char(i);
        let y = b.get_char(i);
        let fx: u32 = if 'A' <= x && x <= 'Z' { x as u32 + 32 } else { x as u32 };
        let fy: u32 = if 'A' <= y && y <= 'Z' { y as u32 + 32 } else { y as u32 };
        if fx != fy {
            return false;
        }
        i = i + 1;
    }
    true
}

} // verus!
