//! Recognising subtitle file names such as `movie.en.srt` or `movie.ja.hi.vtt`.
use vstd::prelude::*;
use crate::text::{ends_with_at, no_dot};

verus! {

/// What a matching file name tells: its language, whether it is a
/// hearing-impaired variant, and its extension.
#[derive(Clone, Debug, PartialEq, Eq)]
pub struct SubMatch {
    pub lang: String,
    pub hi: bool,
    pub ext: String,
}

pub open spec fn srt_seq() -> Seq<char> {
    seq!['s', 'r', 't']
}

pub open spec fn vtt_seq() -> Seq<char> {
    seq!['v', 't', 't']
}

pub open spec fn hi_seq() -> Seq<char> {
    seq!['h', 'i']
}

/// The extensions that discovery accepts: `srt`, and `vtt` when asked for.
pub open spec fn ext_allowed(e: Seq<char>, find_vtt: bool) -> bool {
    e == srt_seq() || (find_vtt && e == vtt_seq())
}

/// `s` holds, right before `end`, a dot and then the language `l`, and the
/// dot follows at least one character that is not a dot.
pub open spec fn lang_ends_at(s: Seq<char>, end: int, l: Seq<char>) -> bool {
    let start = end - l.len();
    &&& 2 <= start
    &&& end <= s.len()
    &&& s.subrange(start, end) == l
    &&& s[start - 1] == '.'
    &&& s[start - 2] != '.'
}

/// The file-name rule `<non-dots>.<lang1|lang2>(.hi)?.<ext>` at the end of
/// `n`, read as a search: where both readings fit, the one whose match starts
/// further left (the one with `.hi`) wins.
/// Gives the language, the hearing-impaired flag and the extension.
pub open spec fn match_spec(n: Seq<char>, l1: Seq<char>, l2: Seq<char>, find_vtt: bool) -> Option<
    (Seq<char>, bool, Seq<char>),
> {
    let len = n.len() as int;
    if len < 4 || n[len - 4] != '.' || !ext_allowed(n.subrange(len - 3, len), find_vtt) {
        None
    } else {
        let ext = n.subrange(len - 3, len);
        let has_hi = len >= 7 && n.subrange(len - 7, len - 4) == seq!['.'] + hi_seq();
        if has_hi && lang_ends_at(n, len - 7, l1) {
            Some((l1, true, ext))
        } else if has_hi && lang_ends_at(n, len - 7, l2) {
            Some((l2, true, ext))
        } else if lang_ends_at(n, len - 4, l1) {
            Some((l1, false, ext))
        } else if lang_ends_at(n, len - 4, l2) {
            Some((l2, false, ext))
        } else {
            None
        }
    }
}

/// The text of the regular expression that `match_spec` describes.
pub open spec fn regex_text(l1: Seq<char>, l2: Seq<char>, find_vtt: bool) -> Seq<char> {
    "[^\\.]+\\.(?P<lang>"@ + l1 + "|"@ + l2 + ")(\\.(?P<hearing>hi))?\\.(?P<ext>"@ + (if find_vtt {
        "srt|vtt"@
    } else {
        "srt"@
    }) + ")$"@
}

/// The file-name rule written as a regular expression, with named groups
/// `lang`, `hearing` and `ext`. The language codes are put in as they are.
pub fn get_sub_path_regex(lang1: &str, lang2: &str, find_vtt: bool) -> (r: String)
    ensures
        r@ == regex_text(lang1@, lang2@, find_vtt),
{
    let mut r = String::from_str("[^\\.]+\\.(?P<lang>");
    r.append(lang1);
    r.append("|");
    r.append(lang2);
    r.append(")(\\.(?P<hearing>hi))?\\.(?P<ext>");
    if find_vtt {
        r.append("srt|vtt");
    } else {
        r.append("srt");
    }
    r.append(")$");
    r
}

fn lang_ends_at_exec(s: &str, end: usize, l: &str) -> (r: bool)
    requires
        end <= s@.len(),
    ensures
        r == lang_ends_at(s@, end as int, l@),
{
    let ll = l.unicode_len();
    if ll >= end || end - ll < 2 {
        return false;
    }
    let start = end - ll;
    ends_with_at(s, end, l) && s.get_char(start - 1) == '.' && s.get_char(start - 2) != '.'
}

/// Applies the file-name rule to `name`.
pub fn match_sub_file_name(name: &str, lang1: &str, lang2: &str, find_vtt: bool) -> (r: Option<
    SubMatch,
>)
    requires
        no_dot(lang1@),
        no_dot(lang2@),
    ensures
        match r {
            Some(m) => match_spec(name@, lang1@, lang2@, find_vtt) == Some((m.lang@, m.hi, m.ext@)),
            None => match_spec(name@, lang1@, lang2@, find_vtt) is None,
        },
{
    proof {
        reveal_strlit("srt");
        reveal_strlit("vtt");
        reveal_strlit(".hi");
    }
    let len = name.unicode_len();
    if len < 4 || name.get_char(len - 4) != '.' {
        return None;
    }
    let is_srt = ends_with_at(name, len, "srt");
    let is_vtt = ends_with_at(name, len, "vtt");
    assert("srt"@ == srt_seq());
    assert("vtt"@ == vtt_seq());
    if !(is_srt || (find_vtt && is_vtt)) {
        return None;
    }
    let ext = String::from_str(name.substring_char(len - 3, len));
    let has_hi = len >= 7 && ends_with_at(name, len - 4, ".hi");
    assert(".hi"@ == seq!['.'] + hi_seq());
    if has_hi && lang_ends_at_exec(name, len - 7, lang1) {
        Some(SubMatch { lang: String::from_str(lang1), hi: true, ext })
    } else if has_hi && lang_ends_at_exec(name, len - 7, lang2) {
        Some(SubMatch { lang: String::from_str(lang2), hi: true, ext })
    } else if lang_ends_at_exec(name, len - 4, lang1) {
        Some(SubMatch { lang: String::from_str(lang1), hi: false, ext })
    } else if lang_ends_at_exec(name, len - 4, lang2) {
        Some(SubMatch { lang: String::from_str(lang2), hi: false, ext })
    } else {
        None
    }
}

/// The file name `x.lang.ext`, or `x.lang.hi.ext` for a hearing-impaired variant.
pub open spec fn sub_name(x: Seq<char>, lang: Seq<char>, hi: bool, ext: Seq<char>) -> Seq<char> {
    x + seq!['.'] + lang + (if hi {
        seq!['.'] + hi_seq()
    } else {
        Seq::empty()
    }) + seq!['.'] + ext
}

/// Where the dot-free stretch `[s, end)` of `n` follows a dot, a dot-free
/// language ends at `end` exactly when it is that stretch.
proof fn lemma_lang_at_segment(n: Seq<char>, s: int, end: int, l: Seq<char>)
    requires
        1 <= s <= end <= n.len(),
        n[s - 1] == '.',
        forall|k: int| s <= k < end ==> n[k] != '.',
        no_dot(l),
    ensures
        lang_ends_at(n, end, l) <==> (l == n.subrange(s, end) && 2 <= s && n[s - 2] != '.'),
{
    if lang_ends_at(n, end, l) {
        let start = end - l.len();
        if start < s {
            assert(n.subrange(start, end)[s - 1 - start] == '.');
        } else if start > s {
            assert(n[start - 1] != '.');
        }
    }
}

/// A name `x.lang.ext` or `x.lang.hi.ext`, with `x` non-empty and no dot in
/// `x`, `lang` or `ext`, matches exactly when `lang` is one of the two
/// requested languages and `ext` is an accepted extension; a match reports
/// that language and extension, and the hearing-impaired flag exactly when
/// the `.hi` segment is there. (A requested language `hi` would itself read
/// the `hi` segment as a language, so it is left out for names whose own
/// language is not requested.)
pub proof fn lemma_match_by_parts(
    x: Seq<char>,
    lang: Seq<char>,
    hi: bool,
    ext: Seq<char>,
    l1: Seq<char>,
    l2: Seq<char>,
    find_vtt: bool,
)
    requires
        x.len() > 0,
        no_dot(x),
        no_dot(lang),
        no_dot(ext),
        no_dot(l1),
        no_dot(l2),
        !(hi && lang != l1 && lang != l2 && (l1 == hi_seq() || l2 == hi_seq())),
    ensures
        match_spec(sub_name(x, lang, hi, ext), l1, l2, find_vtt) is Some <==> ((lang == l1 || lang
            == l2) && ext_allowed(ext, find_vtt)),
        match_spec(sub_name(x, lang, hi, ext), l1, l2, find_vtt) matches Some(t) ==> (t.0 == lang
            && t.1 == hi && t.2 == ext),
{
    let n = sub_name(x, lang, hi, ext);
    let len = n.len() as int;
    let xl = x.len() as int;
    let a = xl + 1;
    let b = a + lang.len();
    let hl: int = if hi { 3 } else { 0 };
    let c = b + hl;
    assert(len == c + 1 + ext.len());
    assert(n[xl] == '.');
    assert(n[xl - 1] != '.');
    assert forall|k: int| 0 <= k < xl implies n[k] != '.' by {
        assert(n[k] == x[k]);
    }
    assert forall|k: int| a <= k < b implies n[k] != '.' by {
        assert(n[k] == lang[k - a]);
    }
    assert(n.subrange(a, b) =~= lang);
    assert(n[c] == '.');
    assert forall|k: int| c + 1 <= k < len implies n[k] != '.' by {
        assert(n[k] == ext[k - c - 1]);
    }
    assert(n.subrange(c + 1, len) =~= ext);
    if hi {
        assert(n[b] == '.');
        assert(n[b + 1] == 'i' || n[b + 1] == 'h');
        assert(n[b + 1] == 'h' && n[b + 2] == 'i');
        assert(n.subrange(b + 1, c) =~= hi_seq());
    }
    if ext.len() == 3 {
        assert(n[len - 4] == '.');
        let has_hi = len >= 7 && n.subrange(len - 7, len - 4) == seq!['.'] + hi_seq();
        if hi {
            assert(n.subrange(len - 7, len - 4) =~= seq!['.'] + hi_seq());
            lemma_lang_at_segment(n, a, b, l1);
            lemma_lang_at_segment(n, a, b, l2);
            lemma_lang_at_segment(n, b + 1, c, l1);
            lemma_lang_at_segment(n, b + 1, c, l2);
        } else {
            if has_hi {
                let s7 = n.subrange(len - 7, len - 4);
                assert(s7[0] == '.');
                assert(n[len - 7] == '.');
                assert(len - 7 == xl);
                assert(lang =~= hi_seq()) by {
                    assert(n.subrange(a, b) =~= s7.subrange(1, 3));
                }
                if xl >= 1 {
                    assert(!lang_ends_at(n, xl, l1)) by {
                        if lang_ends_at(n, xl, l1) {
                            let st = xl - l1.len();
                            assert(n[st - 1] == '.');
                        }
                    }
                    assert(!lang_ends_at(n, xl, l2)) by {
                        if lang_ends_at(n, xl, l2) {
                            let st = xl - l2.len();
                            assert(n[st - 1] == '.');
                        }
                    }
                }
            }
            lemma_lang_at_segment(n, a, b, l1);
            lemma_lang_at_segment(n, a, b, l2);
        }
    } else if ext.len() < 3 {
        if len >= 4 {
            assert(n.subrange(len - 3, len)[2 - ext.len()] == '.');
        }
    } else {
        assert(n[len - 4] != '.');
    }
}

/// A name with two dots right before its language segment never matches.
/// The requested languages are non-empty; for a name with the `.hi`
/// segment neither of them may be `hi` itself, which would read that
/// segment as a language.
pub proof fn lemma_double_dot_never_matches(
    a: Seq<char>,
    lang: Seq<char>,
    hi: bool,
    ext: Seq<char>,
    l1: Seq<char>,
    l2: Seq<char>,
    find_vtt: bool,
)
    requires
        no_dot(lang),
        no_dot(ext),
        no_dot(l1),
        no_dot(l2),
        l1.len() > 0,
        l2.len() > 0,
        hi ==> l1 != hi_seq() && l2 != hi_seq(),
    ensures
        match_spec(sub_name(a + seq!['.'], lang, hi, ext), l1, l2, find_vtt) is None,
{
    let x = a + seq!['.'];
    let n = sub_name(x, lang, hi, ext);
    let len = n.len() as int;
    let xl = x.len() as int;
    let a1 = xl + 1;
    let b = a1 + lang.len();
    let hl: int = if hi { 3 } else { 0 };
    let c = b + hl;
    assert(len == c + 1 + ext.len());
    assert(n[xl] == '.');
    assert(n[xl - 1] == '.');
    assert forall|k: int| a1 <= k < b implies n[k] != '.' by {
        assert(n[k] == lang[k - a1]);
    }
    assert(n.subrange(a1, b) =~= lang);
    assert(n[c] == '.');
    assert forall|k: int| c + 1 <= k < len implies n[k] != '.' by {
        assert(n[k] == ext[k - c - 1]);
    }
    if hi {
        assert(n[b] == '.');
        assert(n[b + 1] == 'h' && n[b + 2] == 'i');
        assert(n.subrange(b + 1, c) =~= hi_seq());
    }
    if ext.len() == 3 {
        let has_hi = len >= 7 && n.subrange(len - 7, len - 4) == seq!['.'] + hi_seq();
        if hi {
            lemma_lang_at_segment(n, a1, b, l1);
            lemma_lang_at_segment(n, a1, b, l2);
            lemma_lang_at_segment(n, b + 1, c, l1);
            lemma_lang_at_segment(n, b + 1, c, l2);
        } else {
            if has_hi {
                let s7 = n.subrange(len - 7, len - 4);
                assert(s7[0] == '.' && s7[1] == 'h' && s7[2] == 'i');
                assert(n[len - 7] == '.' && n[len - 6] == 'h' && n[len - 5] == 'i');
                assert(len - 7 == xl);
                assert(!lang_ends_at(n, xl, l1)) by {
                    if lang_ends_at(n, xl, l1) {
                        assert(n.subrange(xl - l1.len(), xl)[l1.len() - 1] == '.');
                    }
                }
                assert(!lang_ends_at(n, xl, l2)) by {
                    if lang_ends_at(n, xl, l2) {
                        assert(n.subrange(xl - l2.len(), xl)[l2.len() - 1] == '.');
                    }
                }
            }
            lemma_lang_at_segment(n, a1, b, l1);
            lemma_lang_at_segment(n, a1, b, l2);
        }
    }
}

} // verus!
