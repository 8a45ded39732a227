//! Finding subtitle files by name in directory listings, and pairing the
//! two languages of each title.
use vstd::prelude::*;
use crate::matcher::{match_spec, match_sub_file_name};
use crate::naming::{base_file_stem, stem_spec};
use crate::text::{no_dot, starts_with};

verus! {

/// A subtitle file found in a directory: its name there, its language, and
/// whether it is a hearing-impaired variant.
#[derive(Clone, Debug, PartialEq, Eq)]
pub struct SubFile {
    pub path: String,
    pub lang: String,
    pub hi: bool,
}

pub ghost struct SubFileView {
    pub path: Seq<char>,
    pub lang: Seq<char>,
    pub hi: bool,
}

impl View for SubFile {
    type V = SubFileView;

    open spec fn view(&self) -> SubFileView {
        SubFileView { path: self.path@, lang: self.lang@, hi: self.hi }
    }
}

/// The names of the regular files directly inside one directory.
#[derive(Clone, Debug)]
pub struct DirListing {
    pub dir: String,
    pub files: Vec<String>,
}

/// The subtitle files found directly inside one directory.
#[derive(Clone, Debug)]
pub struct DirGroup {
    pub dir: String,
    pub subs: Vec<SubFile>,
}

pub open spec fn names_view(v: Seq<String>) -> Seq<Seq<char>> {
    v.map_values(|s: String| s@)
}

pub open spec fn subs_view(v: Seq<SubFile>) -> Seq<SubFileView> {
    v.map_values(|f: SubFile| f@)
}

/// The files among `names` that the file-name rule accepts, in order.
pub open spec fn matches_of(names: Seq<Seq<char>>, l1: Seq<char>, l2: Seq<char>, find_vtt: bool) -> Seq<
    SubFileView,
>
    decreases names.len(),
{
    if names.len() == 0 {
        Seq::empty()
    } else {
        let prev = matches_of(names.drop_last(), l1, l2, find_vtt);
        match match_spec(names.last(), l1, l2, find_vtt) {
            Some(t) => prev.push(SubFileView { path: names.last(), lang: t.0, hi: t.1 }),
            None => prev,
        }
    }
}

/// The subtitle files among the names of one directory, in order.
pub fn match_directory(names: &Vec<String>, lang1: &str, lang2: &str, find_vtt: bool) -> (r: Vec<
    SubFile,
>)
    requires
        no_dot(lang1@),
        no_dot(lang2@),
    ensures
        subs_view(r@) == matches_of(names_view(names@), lang1@, lang2@, find_vtt),
{
    let n = names.len();
    let mut r: Vec<SubFile> = Vec::new();
    let mut i: usize = 0;
    while i < n
        invariant
            n == names@.len(),
            no_dot(lang1@),
            no_dot(lang2@),
            i <= n,
            subs_view(r@) == matches_of(names_view(names@).subrange(0, i as int), lang1@, lang2@, find_vtt),
        decreases n - i,
    {
        let name = &names[i];
        let ghost before = subs_view(r@);
        assert(names_view(names@).subrange(0, i + 1).drop_last() =~= names_view(names@).subrange(0, i as int));
        assert(names_view(names@).subrange(0, i + 1).last() == name@);
        match match_sub_file_name(name.as_str(), lang1, lang2, find_vtt) {
            Some(m) => {
                r.push(SubFile { path: name.clone(), lang: m.lang, hi: m.hi });
                assert(subs_view(r@) =~= before.push(r@.last()@));
            },
            None => {},
        }
        i = i + 1;
    }
    assert(names_view(names@).subrange(0, n as int) =~= names_view(names@));
    r
}

pub ghost struct GroupView {
    pub dir: Seq<char>,
    pub subs: Seq<SubFileView>,
}

/// The directories of a walk with the subtitle files of each, leaving out
/// those with none.
pub open spec fn groups_of(
    listing: Seq<DirListing>,
    l1: Seq<char>,
    l2: Seq<char>,
    find_vtt: bool,
) -> Seq<GroupView>
    decreases listing.len(),
{
    if listing.len() == 0 {
        Seq::empty()
    } else {
        let prev = groups_of(listing.drop_last(), l1, l2, find_vtt);
        let d = listing.last();
        let m = matches_of(names_view(d.files@), l1, l2, find_vtt);
        if m.len() == 0 {
            prev
        } else {
            prev.push(GroupView { dir: d.dir@, subs: m })
        }
    }
}

/// No directory is listed twice.
pub open spec fn listing_dirs_distinct(l: Seq<DirListing>) -> bool {
    forall|i: int, j: int| 0 <= i < j < l.len() ==> #[trigger] l[i].dir@ != #[trigger] l[j].dir@
}

/// No directory has two groups.
pub open spec fn group_dirs_distinct(g: Seq<GroupView>) -> bool {
    forall|i: int, j: int| 0 <= i < j < g.len() ==> #[trigger] g[i].dir != #[trigger] g[j].dir
}

/// Each group's directory is one of the listing's, and where the listing
/// names each directory once, so do the groups.
pub proof fn lemma_group_dirs(listing: Seq<DirListing>, l1: Seq<char>, l2: Seq<char>, find_vtt: bool)
    ensures
        forall|k: int| 0 <= k < groups_of(listing, l1, l2, find_vtt).len() ==> exists|i: int|
            0 <= i < listing.len() && #[trigger] groups_of(listing, l1, l2, find_vtt)[k].dir == listing[i].dir@,
        listing_dirs_distinct(listing) ==> group_dirs_distinct(groups_of(listing, l1, l2, find_vtt)),
    decreases listing.len(),
{
    if listing.len() > 0 {
        let init = listing.drop_last();
        lemma_group_dirs(init, l1, l2, find_vtt);
        let prev = groups_of(init, l1, l2, find_vtt);
        let g = groups_of(listing, l1, l2, find_vtt);
        assert forall|k: int| 0 <= k < g.len() implies exists|i: int|
            0 <= i < listing.len() && #[trigger] g[k].dir == listing[i].dir@ by {
            if k < prev.len() {
                assert(g[k] == prev[k]);
                let i = choose|i: int| 0 <= i < init.len() && #[trigger] prev[k].dir == init[i].dir@;
                assert(listing[i] == init[i]);
            } else {
                assert(g[k].dir == listing[listing.len() - 1].dir@);
            }
        }
        if listing_dirs_distinct(listing) {
            assert(listing_dirs_distinct(init)) by {
                assert forall|i: int, j: int| 0 <= i < j < init.len() implies #[trigger] init[i].dir@
                    != #[trigger] init[j].dir@ by {
                    assert(init[i] == listing[i] && init[j] == listing[j]);
                }
            }
            assert forall|i: int, j: int| 0 <= i < j < g.len() implies #[trigger] g[i].dir != #[trigger] g[j].dir by {
                if j >= prev.len() {
                    assert(g[i] == prev[i]);
                    let x = choose|x: int| 0 <= x < init.len() && #[trigger] prev[i].dir == init[x].dir@;
                    assert(init[x] == listing[x]);
                    assert(listing[x].dir@ != listing[listing.len() - 1].dir@);
                } else {
                    assert(g[i] == prev[i] && g[j] == prev[j]);
                }
            }
        }
    }
}

pub open spec fn group_views(v: Seq<DirGroup>) -> Seq<GroupView> {
    v.map_values(|g: DirGroup| GroupView { dir: g.dir@, subs: subs_view(g.subs@) })
}

/// Groups the subtitle files of a directory walk by directory: for each
/// listed directory in turn, the files whose names the rule for `lang1`,
/// `lang2` and `find_vtt` accepts; directories without any are left out.
pub fn find_matching_subtitle_files(
    listing: &Vec<DirListing>,
    lang1: &str,
    lang2: &str,
    find_vtt: bool,
) -> (r: Vec<DirGroup>)
    requires
        no_dot(lang1@),
        no_dot(lang2@),
    ensures
        group_views(r@) == groups_of(listing@, lang1@, lang2@, find_vtt),
        listing_dirs_distinct(listing@) ==> group_dirs_distinct(group_views(r@)),
{
    let n = listing.len();
    let mut r: Vec<DirGroup> = Vec::new();
    let mut i: usize = 0;
    while i < n
        invariant
            n == listing@.len(),
            no_dot(lang1@),
            no_dot(lang2@),
            i <= n,
            group_views(r@) == groups_of(listing@.subrange(0, i as int), lang1@, lang2@, find_vtt),
        decreases n - i,
    {
        let d = &listing[i];
        let ghost before = group_views(r@);
        assert(listing@.subrange(0, i + 1).drop_last() =~= listing@.subrange(0, i as int));
        assert(listing@.subrange(0, i + 1).last() == *d);
        let subs = match_directory(&d.files, lang1, lang2, find_vtt);
        if subs.len() > 0 {
            r.push(DirGroup { dir: d.dir.clone(), subs });
            assert(group_views(r@) =~= before.push(GroupView { dir: d.dir@, subs: subs_view(r@.last().subs@) }));
        }
        i = i + 1;
    }
    assert(listing@.subrange(0, n as int) =~= listing@);
    proof {
        lemma_group_dirs(listing@, lang1@, lang2@, find_vtt);
    }
    r
}

/// The files of one title in the two languages, by their index in the
/// directory's list.
#[derive(Clone, Copy, Debug, PartialEq, Eq, Structural)]
pub struct SubPair {
    pub first: usize,
    pub second: usize,
}

/// Which files a search admits: any, only regular ones, or only
/// hearing-impaired ones.
pub open spec fn kind_ok(hi: bool, mode: int) -> bool {
    mode == 0 || (mode == 1 && !hi) || (mode == 2 && hi)
}

/// `f` is in language `lang`, has the base name `stem` and is of the kind `mode`.
pub open spec fn fits(f: SubFileView, lang: Seq<char>, stem: Seq<char>, mode: int) -> bool {
    f.lang == lang && stem_spec(f.path) == Some(stem) && kind_ok(f.hi, mode)
}

/// The first index from `i` on whose file fits, or the length where none does.
pub open spec fn first_fit(s: Seq<SubFileView>, lang: Seq<char>, stem: Seq<char>, mode: int, i: int) -> int
    decreases s.len() - i,
{
    if i >= s.len() {
        s.len() as int
    } else if fits(s[i], lang, stem, mode) {
        i
    } else {
        first_fit(s, lang, stem, mode, i + 1)
    }
}

/// The file chosen for a language and a base name: the first regular one,
/// else the first hearing-impaired one; the length where there is none.
pub open spec fn best(s: Seq<SubFileView>, lang: Seq<char>, stem: Seq<char>) -> int {
    let regular = first_fit(s, lang, stem, 1, 0);
    if regular < s.len() {
        regular
    } else {
        first_fit(s, lang, stem, 2, 0)
    }
}

/// The pairs among the first `k` files: one for each base name, at the first
/// file of `l1` with it, where a file of `l2` shares it.
pub open spec fn pairs_spec(s: Seq<SubFileView>, l1: Seq<char>, l2: Seq<char>, k: int) -> Seq<SubPair>
    decreases k,
{
    if k <= 0 {
        Seq::empty()
    } else {
        let prev = pairs_spec(s, l1, l2, k - 1);
        let j = k - 1;
        match stem_spec(s[j].path) {
            Some(st) => if s[j].lang == l1 && first_fit(s, l1, st, 0, 0) == j && best(s, l2, st)
                < s.len() {
                prev.push(SubPair { first: best(s, l1, st) as usize, second: best(s, l2, st) as usize })
            } else {
                prev
            },
            None => prev,
        }
    }
}

/// Whether `a` and `b` hold the same characters.
fn same_text(a: &str, b: &str) -> (r: bool)
    ensures
        r == (a@ == b@),
{
    if a.unicode_len() != b.unicode_len() {
        return false;
    }
    assert(a@ =~= a@.subrange(0, b@.len() as int));
    starts_with(a, b)
}

/// The first index from `i` on whose file fits, given the base names of the files.
fn first_fit_exec(
    subs: &Vec<SubFile>,
    stems: &Vec<Option<String>>,
    lang: &str,
    stem: &str,
    mode: u8,
    i: usize,
) -> (r: usize)
    requires
        stems@.len() == subs@.len(),
        forall|k: int| 0 <= k < subs@.len() ==> (match #[trigger] stems@[k] {
            Some(t) => stem_spec(subs@[k].path@) == Some(t@),
            None => stem_spec(subs@[k].path@) is None,
        }),
        i <= subs@.len(),
        mode <= 2,
    ensures
        r == first_fit(subs_view(subs@), lang@, stem@, mode as int, i as int),
{
    let n = subs.len();
    let mut j: usize = i;
    while j < n
        invariant
            n == subs@.len(),
            stems@.len() == n,
            forall|k: int| 0 <= k < subs@.len() ==> (match #[trigger] stems@[k] {
                Some(t) => stem_spec(subs@[k].path@) == Some(t@),
                None => stem_spec(subs@[k].path@) is None,
            }),
            i <= j <= n,
            first_fit(subs_view(subs@), lang@, stem@, mode as int, i as int)
                == first_fit(subs_view(subs@), lang@, stem@, mode as int, j as int),
        decreases n - j,
    {
        let f = &subs[j];
        assert(subs_view(subs@)[j as int] == f@);
        let kind = mode == 0 || (mode == 1 && !f.hi) || (mode == 2 && f.hi);
        let same_stem = match &stems[j] {
            Some(t) => same_text(t.as_str(), stem),
            None => false,
        };
        if kind && same_stem && same_text(f.lang.as_str(), lang) {
            return j;
        }
        j = j + 1;
    }
    j
}

fn best_exec(subs: &Vec<SubFile>, stems: &Vec<Option<String>>, lang: &str, stem: &str) -> (r: usize)
    requires
        stems@.len() == subs@.len(),
        forall|k: int| 0 <= k < subs@.len() ==> (match #[trigger] stems@[k] {
            Some(t) => stem_spec(subs@[k].path@) == Some(t@),
            None => stem_spec(subs@[k].path@) is None,
        }),
    ensures
        r == best(subs_view(subs@), lang@, stem@),
{
    let regular = first_fit_exec(subs, stems, lang, stem, 1, 0);
    if regular < subs.len() {
        regular
    } else {
        first_fit_exec(subs, stems, lang, stem, 2, 0)
    }
}

/// Pairs the files of one directory by base name: for each base name, in the
/// order in which files of `lang1` first carry it, the chosen file of
/// `lang1` and of `lang2`; a regular file is chosen before a
/// hearing-impaired one, and of equals the first. A base name without a
/// file of both languages gives no pair.
pub fn resolve_pairs(subs: &Vec<SubFile>, lang1: &str, lang2: &str) -> (r: Vec<SubPair>)
    ensures
        r@ == pairs_spec(subs_view(subs@), lang1@, lang2@, subs@.len() as int),
{
    let n = subs.len();
    let mut stems: Vec<Option<String>> = Vec::new();
    let mut i: usize = 0;
    while i < n
        invariant
            n == subs@.len(),
            i <= n,
            stems@.len() == i,
            forall|k: int| 0 <= k < i ==> (match #[trigger] stems@[k] {
                Some(t) => stem_spec(subs@[k].path@) == Some(t@),
                None => stem_spec(subs@[k].path@) is None,
            }),
        decreases n - i,
    {
        stems.push(base_file_stem(subs[i].path.as_str()));
        i = i + 1;
    }
    let ghost sv = subs_view(subs@);
    let mut r: Vec<SubPair> = Vec::new();
    let mut j: usize = 0;
    while j < n
        invariant
            n == subs@.len(),
            sv == subs_view(subs@),
            stems@.len() == n,
            forall|k: int| 0 <= k < n ==> (match #[trigger] stems@[k] {
                Some(t) => stem_spec(subs@[k].path@) == Some(t@),
                None => stem_spec(subs@[k].path@) is None,
            }),
            j <= n,
            r@ == pairs_spec(sv, lang1@, lang2@, j as int),
        decreases n - j,
    {
        let f = &subs[j];
        assert(sv[j as int] == f@);
        match &stems[j] {
            Some(st) => {
                if same_text(f.lang.as_str(), lang1) {
                    let first = first_fit_exec(subs, &stems, lang1, st.as_str(), 0, 0);
                    if first == j {
                        let b2 = best_exec(subs, &stems, lang2, st.as_str());
                        if b2 < n {
                            let b1 = best_exec(subs, &stems, lang1, st.as_str());
                            r.push(SubPair { first: b1, second: b2 });
                        }
                    }
                }
            },
            None => {},
        }
        j = j + 1;
    }
    r
}

} // verus!
