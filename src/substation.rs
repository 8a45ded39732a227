//! A check on SubStation style lines, made before a document is handed to
//! the SubStation codec: the codec cuts colour fields by bytes and expects
//! an alignment of 1 to 9, so those columns must hold ASCII text and a
//! single digit.
use vstd::prelude::*;
use crate::naming::{eq_ignore_case, fold_ascii, fold_char};

verus! {

/// `s` cut at every `c`: the pieces between the separators, in order.
pub open spec fn split_on(s: Seq<char>, c: char) -> Seq<Seq<char>>
    decreases s.len(),
{
    if s.len() == 0 {
        seq![Seq::empty()]
    } else {
        let prev = split_on(s.drop_last(), c);
        if s.last() == c {
            prev.push(Seq::empty())
        } else {
            prev.update(prev.len() - 1, prev.last().push(s.last()))
        }
    }
}

proof fn lemma_split_nonempty(s: Seq<char>, c: char)
    ensures
        split_on(s, c).len() >= 1,
    decreases s.len(),
{
    if s.len() > 0 {
        lemma_split_nonempty(s.drop_last(), c);
    }
}

pub open spec fn vviews(v: Seq<Vec<char>>) -> Seq<Seq<char>> {
    v.map_values(|x: Vec<char>| x@)
}

/// The pieces of `v` between the separators `c`.
pub fn split_chars(v: &Vec<char>, c: char) -> (r: Vec<Vec<char>>)
    ensures
        vviews(r@) == split_on(v@, c),
{
    let n = v.len();
    let mut out: Vec<Vec<char>> = Vec::new();
    let mut cur: Vec<char> = Vec::new();
    let mut i: usize = 0;
    while i < n
        invariant
            n == v@.len(),
            i <= n,
            split_on(v@.take(i as int), c) == vviews(out@).push(cur@),
        decreases n - i,
    {
        let x = v[i];
        assert(v@.take(i + 1).drop_last() =~= v@.take(i as int));
        assert(v@.take(i + 1).last() == x);
        if x == c {
            let ghost before = vviews(out@);
            out.push(cur);
            assert(vviews(out@) =~= before.push(cur@));
            cur = Vec::new();
            assert(split_on(v@.take(i + 1), c) =~= vviews(out@).push(cur@));
        } else {
            cur.push(x);
            assert(split_on(v@.take(i + 1), c) =~= vviews(out@).push(cur@));
        }
        i = i + 1;
    }
    assert(v@.take(n as int) =~= v@);
    let ghost before = vviews(out@);
    out.push(cur);
    assert(vviews(out@) =~= before.push(cur@));
    out
}

/// What follows the prefix `p` in `l`, where `l` starts with it.
pub open spec fn after_prefix(l: Seq<char>, p: Seq<char>) -> Option<Seq<char>> {
    if p.len() <= l.len() && l.take(p.len() as int) == p {
        Some(l.skip(p.len() as int))
    } else {
        None
    }
}

/// The rest of `v` after the prefix `p`, where `v` starts with it.
fn strip_prefix_chars(v: &Vec<char>, p: &str) -> (r: Option<Vec<char>>)
    ensures
        match r {
            Some(x) => after_prefix(v@, p@) == Some(x@),
            None => after_prefix(v@, p@) is None,
        },
{
    let m = p.unicode_len();
    let n = v.len();
    if m > n {
        return None;
    }
    let mut i: usize = 0;
    while i < m
        invariant
            m == p@.len(),
            m <= n,
            n == v@.len(),
            i <= m,
            forall|k: int| 0 <= k < i ==> v@[k] == p@[k],
        decreases m - i,
    {
        if v[i] != p.get_char(i) {
            assert(v@.take(m as int)[i as int] != p@[i as int]);
            return None;
        }
        i = i + 1;
    }
    assert(v@.take(m as int) =~= p@);
    let mut rest: Vec<char> = Vec::new();
    let mut j: usize = m;
    while j < n
        invariant
            m <= j <= n,
            n == v@.len(),
            rest@ == v@.subrange(m as int, j as int),
        decreases n - j,
    {
        rest.push(v[j]);
        assert(rest@ =~= v@.subrange(m as int, j + 1));
        j = j + 1;
    }
    assert(rest@ =~= v@.skip(m as int));
    Some(rest)
}

/// `h` holds `w` somewhere, with ASCII letters in any case.
pub open spec fn contains_ci(h: Seq<char>, w: Seq<char>) -> bool {
    exists|i: int| 0 <= i && i + w.len() <= h.len() && #[trigger] eq_ignore_case(h.subrange(i, i + w.len()), w)
}

fn contains_ci_exec(h: &Vec<char>, w: &str) -> (r: bool)
    ensures
        r == contains_ci(h@, w@),
{
    let m = w.unicode_len();
    let n = h.len();
    if m > n {
        return false;
    }
    let mut i: usize = 0;
    while i <= n - m
        invariant
            m == w@.len(),
            n == h@.len(),
            m <= n,
            i <= n - m + 1,
            forall|a: int| 0 <= a < i ==> !#[trigger] eq_ignore_case(h@.subrange(a, a + m), w@),
        decreases n - m + 1 - i,
    {
        let mut k: usize = 0;
        let mut same = true;
        while k < m
            invariant
                m == w@.len(),
                n == h@.len(),
                i + m <= n,
                k <= m,
                same == forall|q: int| 0 <= q < k ==> fold_char(h@[i + q]) == fold_char(w@[q]),
            decreases m - k,
        {
            let x = h[i + k];
            let y = w.get_char(k);
            assert(x == h@[i + k] && y == w@[k as int]);
            let fx = fold_ascii(x);
            let fy = fold_ascii(y);
            same = same && fx == fy;
            k = k + 1;
        }
        proof {
            let sub = h@.subrange(i as int, i + m);
            assert forall|q: int| 0 <= q < m implies sub[q] == h@[i + q] by {}
        }
        if same {
            assert(eq_ignore_case(h@.subrange(i as int, i + m), w@));
            return true;
        }
        i = i + 1;
    }
    false
}

pub open spec fn is_blank(c: char) -> bool {
    c == ' ' || c == '\t' || c == '\r'
}

/// `v` is one digit 1 to 9 with nothing but blanks round it.
pub open spec fn align_value(v: Seq<char>) -> bool {
    exists|p: int|
        0 <= p < v.len() && '1' <= #[trigger] v[p] && v[p] <= '9' && forall|q: int|
            0 <= q < v.len() && q != p ==> is_blank(v[q])
}

fn align_value_exec(v: &Vec<char>) -> (r: bool)
    ensures
        r == align_value(v@),
{
    let n = v.len();
    let mut found: Option<usize> = None;
    let mut i: usize = 0;
    while i < n
        invariant
            n == v@.len(),
            i <= n,
            match found {
                Some(p) => p < i && !is_blank(v@[p as int]) && forall|q: int| 0 <= q < i && q != p ==> is_blank(v@[q]),
                None => forall|q: int| 0 <= q < i ==> is_blank(v@[q]),
            },
        decreases n - i,
    {
        let c = v[i];
        if !(c == ' ' || c == '\t' || c == '\r') {
            match found {
                Some(p) => {
                    assert(!align_value(v@)) by {
                        if align_value(v@) {
                            let w = choose|w: int|
                                0 <= w < v@.len() && '1' <= #[trigger] v@[w] && v@[w] <= '9' && forall|q: int|
                                    0 <= q < v@.len() && q != w ==> is_blank(v@[q]);
                            if w == p as int {
                                assert(is_blank(v@[i as int]));
                            } else {
                                assert(is_blank(v@[p as int]));
                            }
                        }
                    }
                    return false;
                },
                None => {
                    found = Some(i);
                },
            }
        }
        i = i + 1;
    }
    match found {
        Some(p) => {
            let c = v[p];
            if '1' <= c && c <= '9' {
                true
            } else {
                assert(!align_value(v@)) by {
                    if align_value(v@) {
                        let w = choose|w: int|
                            0 <= w < v@.len() && '1' <= #[trigger] v@[w] && v@[w] <= '9' && forall|q: int|
                                0 <= q < v@.len() && q != w ==> is_blank(v@[q]);
                        if w != p as int {
                            assert(is_blank(v@[w]));
                        }
                    }
                }
                false
            }
        },
        None => {
            assert(!align_value(v@)) by {
                if align_value(v@) {
                    let w = choose|w: int|
                        0 <= w < v@.len() && '1' <= #[trigger] v@[w] && v@[w] <= '9' && forall|q: int|
                            0 <= q < v@.len() && q != w ==> is_blank(v@[q]);
                    assert(is_blank(v@[w]));
                }
            }
            false
        },
    }
}

pub open spec fn ascii_only(v: Seq<char>) -> bool {
    forall|q: int| 0 <= q < v.len() ==> (#[trigger] v[q] as u32) < 128
}

fn ascii_only_exec(v: &Vec<char>) -> (r: bool)
    ensures
        r == ascii_only(v@),
{
    let n = v.len();
    let mut i: usize = 0;
    while i < n
        invariant
            n == v@.len(),
            i <= n,
            forall|q: int| 0 <= q < i ==> (#[trigger] v@[q] as u32) < 128,
        decreases n - i,
    {
        if v[i] as u32 >= 128 {
            return false;
        }
        i = i + 1;
    }
    true
}

pub open spec fn format_seq() -> Seq<char> {
    seq!['F', 'o', 'r', 'm', 'a', 't', ':']
}

pub open spec fn style_seq() -> Seq<char> {
    seq!['S', 't', 'y', 'l', 'e', ':']
}

/// A style field under the header `h` is safe for the codec: under an
/// alignment header a single digit 1 to 9, under a colour header ASCII text.
pub open spec fn column_ok(h: Seq<char>, v: Seq<char>) -> bool {
    &&& contains_ci(h, "alignment"@) ==> align_value(v)
    &&& contains_ci(h, "colour"@) ==> ascii_only(v)
}

/// Where `f` is a `Format:` line and `l` a `Style:` line, each field of `l`
/// is safe under the header in the same column of `f`.
pub open spec fn pair_ok(f: Seq<char>, l: Seq<char>) -> bool {
    let hf = after_prefix(f, format_seq());
    let lf = after_prefix(l, style_seq());
    hf is Some && lf is Some ==> {
        let hs = split_on(hf->0, ',');
        let vs = split_on(lf->0, ',');
        forall|k: int| 0 <= k < hs.len() && k < vs.len() ==> #[trigger] column_ok(hs[k], vs[k])
    }
}

/// Every `Style:` line of the document is safe under every `Format:` line.
/// The codec takes the columns of a style block from its `Format:` line and
/// finds a header by its trimmed, lower-cased name, so this rules out the
/// style values on which it panics. It asks a little more than the codec
/// does: an alignment digit may be padded only with spaces, tabs and
/// carriage returns.
pub open spec fn styles_safe(s: Seq<char>) -> bool {
    let ls = split_on(s, '\n');
    forall|a: int, b: int| 0 <= a < ls.len() && 0 <= b < ls.len() ==> #[trigger] pair_ok(ls[a], ls[b])
}

fn columns_ok(hs: &Vec<Vec<char>>, vs: &Vec<Vec<char>>) -> (r: bool)
    ensures
        r == forall|k: int| 0 <= k < vviews(hs@).len() && k < vviews(vs@).len() ==> #[trigger] column_ok(vviews(hs@)[k], vviews(vs@)[k]),
{
    let n = if hs.len() < vs.len() { hs.len() } else { vs.len() };
    let mut k: usize = 0;
    while k < n
        invariant
            n <= hs@.len(),
            n <= vs@.len(),
            n == hs@.len() || n == vs@.len(),
            k <= n,
            forall|j: int| 0 <= j < k ==> #[trigger] column_ok(vviews(hs@)[j], vviews(vs@)[j]),
        decreases n - k,
    {
        let h = &hs[k];
        let v = &vs[k];
        assert(vviews(hs@)[k as int] == h@ && vviews(vs@)[k as int] == v@);
        let al = contains_ci_exec(h, "alignment");
        let co = contains_ci_exec(h, "colour");
        if (al && !align_value_exec(v)) || (co && !ascii_only_exec(v)) {
            assert(!column_ok(vviews(hs@)[k as int], vviews(vs@)[k as int]));
            return false;
        }
        k = k + 1;
    }
    true
}

/// Whether the style lines of a SubStation document are safe for its codec.
pub fn styles_safe_exec(content: &str) -> (r: bool)
    ensures
        r == styles_safe(content@),
{
    proof {
        reveal_strlit("Format:");
        reveal_strlit("Style:");
        assert("Format:"@ =~= format_seq());
        assert("Style:"@ =~= style_seq());
    }
    let chars = crate::text::chars_of(content);
    let lines = split_chars(&chars, '\n');
    let ghost ls = split_on(content@, '\n');
    let n = lines.len();
    let mut a: usize = 0;
    while a < n
        invariant
            n == lines@.len(),
            vviews(lines@) == ls,
            ls == split_on(content@, '\n'),
            "Format:"@ == format_seq(),
            "Style:"@ == style_seq(),
            a <= n,
            forall|x: int, b: int| 0 <= x < a && 0 <= b < n ==> #[trigger] pair_ok(ls[x], ls[b]),
        decreases n - a,
    {
        assert(ls[a as int] == lines@[a as int]@);
        match strip_prefix_chars(&lines[a], "Format:") {
            Some(hf) => {
                let hs = split_chars(&hf, ',');
                let mut b: usize = 0;
                while b < n
                    invariant
                        n == lines@.len(),
                        vviews(lines@) == ls,
                        ls == split_on(content@, '\n'),
                        a < n,
                        b <= n,
                        "Format:"@ == format_seq(),
                        "Style:"@ == style_seq(),
                        after_prefix(ls[a as int], "Format:"@) == Some(hf@),
                        vviews(hs@) == split_on(hf@, ','),
                        forall|y: int| 0 <= y < b ==> #[trigger] pair_ok(ls[a as int], ls[y]),
                    decreases n - b,
                {
                    assert(ls[b as int] == lines@[b as int]@);
                    match strip_prefix_chars(&lines[b], "Style:") {
                        Some(lf) => {
                            let vs = split_chars(&lf, ',');
                            if !columns_ok(&hs, &vs) {
                                assert(vviews(hs@) == split_on(hf@, ','));
                                assert(vviews(vs@) == split_on(lf@, ','));
                                assert(after_prefix(ls[b as int], "Style:"@) == Some(lf@));
                                assert(after_prefix(ls[a as int], "Format:"@) == Some(hf@));
                                proof {
                                    let hsv = split_on(hf@, ',');
                                    let vsv = split_on(lf@, ',');
                                    let k = choose|k: int| !(0 <= k < hsv.len() && k < vsv.len() ==> #[trigger] column_ok(hsv[k], vsv[k]));
                                    assert(0 <= k < hsv.len() && k < vsv.len() && !column_ok(hsv[k], vsv[k]));
                                    assert(after_prefix(ls[a as int], format_seq())->0 == hf@);
                                    assert(after_prefix(ls[b as int], style_seq())->0 == lf@);
                                }
                                assert(!pair_ok(ls[a as int], ls[b as int]));
                                return false;
                            }
                        },
                        None => {},
                    }
                    b = b + 1;
                }
            },
            None => {
                assert forall|y: int| 0 <= y < n implies #[trigger] pair_ok(ls[a as int], ls[y]) by {}
            },
        }
        a = a + 1;
    }
    true
}

} // verus!
