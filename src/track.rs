//! The timed-text model: cues and tracks, the per-track transform and the merge.
use vstd::prelude::*;
use crate::position::{marker_of, SubPosition};
use crate::text::starts_with;
use crate::timing::Timestamp;

verus! {

/// One subtitle entry.
#[derive(Debug)]
pub struct Cue {
    pub sequence: u32,
    pub start: Timestamp,
    pub end: Timestamp,
    pub text: String,
}

/// What a cue holds, with its text as characters.
pub ghost struct CueView {
    pub sequence: u32,
    pub start: int,
    pub end: int,
    pub text: Seq<char>,
}

impl View for Cue {
    type V = CueView;

    open spec fn view(&self) -> CueView {
        CueView {
            sequence: self.sequence,
            start: self.start.millis as int,
            end: self.end.millis as int,
            text: self.text@,
        }
    }
}

/// The cues of one subtitle file, in document order.
#[derive(Debug)]
pub struct Track {
    pub cues: Vec<Cue>,
}

impl View for Track {
    type V = Seq<CueView>;

    open spec fn view(&self) -> Seq<CueView> {
        self.cues@.map_values(|c: Cue| c@)
    }
}

/// The top-centre override that some files carry at the start of each cue.
pub open spec fn an8_seq() -> Seq<char> {
    seq!['{', '\\', 'a', 'n', '8', '}']
}

/// A cue text without a leading `{\an8}`.
pub open spec fn strip_an8(t: Seq<char>) -> Seq<char> {
    if t.len() >= 6 && t.subrange(0, 6) == an8_seq() {
        t.subrange(6, t.len() as int)
    } else {
        t
    }
}

/// `t` wrapped in `<font color="c">` ... `</font>`, or `t` itself without a colour.
pub open spec fn colored(t: Seq<char>, color: Option<Seq<char>>) -> Seq<char> {
    match color {
        Some(c) => "<font color=\""@ + c + "\">"@ + t + "</font>"@,
        None => t,
    }
}

/// The characters of an optional colour.
pub open spec fn color_view(c: Option<String>) -> Option<Seq<char>> {
    match c {
        Some(s) => Some(s@),
        None => None,
    }
}

/// The text of a cue after the transform: the position marker, a space,
/// and the text, without a leading `{\an8}`, in the colour if one is given.
pub open spec fn transformed_text(t: Seq<char>, color: Option<Seq<char>>, p: SubPosition) -> Seq<
    char,
> {
    marker_of(p) + seq![' '] + colored(strip_an8(t), color)
}

/// `b` is `a` with every start and end moved by `d`.
pub open spec fn shifted_by(a: Seq<CueView>, b: Seq<CueView>, d: int) -> bool {
    &&& a.len() == b.len()
    &&& forall|i: int|
        0 <= i < a.len() ==> #[trigger] b[i].start == a[i].start + d && b[i].end == a[i].end + d
}

/// Every start and end of the track stays in range when moved by `offset`.
pub open spec fn offset_in_range(t: Seq<CueView>, offset: int) -> bool {
    forall|i: int|
        0 <= i < t.len() ==> i64::MIN <= #[trigger] t[i].start + offset <= i64::MAX && i64::MIN
            <= t[i].end + offset <= i64::MAX
}

/// Whether every start and end of `track` stays in range when moved by `offset` milliseconds.
pub fn offset_fits(track: &Track, offset: i64) -> (r: bool)
    ensures
        r == offset_in_range(track@, offset as int),
{
    let n = track.cues.len();
    let mut i: usize = 0;
    while i < n
        invariant
            n == track.cues@.len(),
            i <= n,
            offset_in_range(track@.subrange(0, i as int), offset as int),
        decreases n - i,
    {
        let c = &track.cues[i];
        let s = c.start.millis as i128 + offset as i128;
        let e = c.end.millis as i128 + offset as i128;
        if s < i64::MIN as i128 || s > i64::MAX as i128 || e < i64::MIN as i128 || e
            > i64::MAX as i128 {
            assert(track@[i as int] == c@);
            assert(!(i64::MIN <= track@[i as int].start + offset <= i64::MAX && i64::MIN
                <= track@[i as int].end + offset <= i64::MAX));
            assert(!offset_in_range(track@, offset as int));
            return false;
        }
        proof {
            assert forall|k: int| 0 <= k < i + 1 implies #[trigger] track@.subrange(0, i + 1)[k]
                == track@[k] by {}
            assert(track@[i as int] == c@);
            assert(forall|k: int| 0 <= k < i ==> track@.subrange(0, i as int)[k] == track@[k]);
        }
        i = i + 1;
    }
    assert(track@.subrange(0, n as int) =~= track@);
    true
}

/// The text `t` after the transform of a cue, given the position marker.
fn transform_text(t: &str, color: &Option<String>, marker: &String) -> (r: String)
    ensures
        r@ == marker@ + seq![' '] + colored(strip_an8(t@), color_view(*color)),
{
    proof {
        reveal_strlit("{\\an8}");
        reveal_strlit(" ");
    }
    let body: &str = if starts_with(t, "{\\an8}") {
        assert("{\\an8}"@ == an8_seq());
        t.substring_char(6, t.unicode_len())
    } else {
        assert("{\\an8}"@ =~= an8_seq());
        t
    };
    let mut r = marker.clone();
    r.append(" ");
    match color {
        Some(c) => {
            r.append("<font color=\"");
            r.append(c.as_str());
            r.append("\">");
            r.append(body);
            r.append("</font>");
        },
        None => {
            r.append(body);
        },
    }
    assert(r@ =~= marker@ + seq![' '] + colored(strip_an8(t@), color_view(*color)));
    r
}

/// Applies a track's presentation to each of its cues: the leading
/// `{\an8}` is dropped, the marker of `position` and a space put in front,
/// the text wrapped in `color` if one is given, and start and end moved by
/// `offset` milliseconds. Sequence numbers and the order of cues stay.
pub fn apply_sub_changes(track: &mut Track, color: Option<String>, position: SubPosition, offset: i64)
    requires
        offset_in_range(old(track)@, offset as int),
    ensures
        final(track)@.len() == old(track)@.len(),
        shifted_by(old(track)@, final(track)@, offset as int),
        forall|i: int|
            0 <= i < final(track)@.len() ==> {
                let c = #[trigger] final(track)@[i];
                let o = old(track)@[i];
                &&& c.sequence == o.sequence
                &&& c.start == o.start + offset
                &&& c.end == o.end + offset
                &&& c.text == transformed_text(o.text, color_view(color), position)
            },
{
    let marker = position.marker();
    let n = track.cues.len();
    let mut out: Vec<Cue> = Vec::new();
    let mut i: usize = 0;
    while i < n
        invariant
            n == track.cues@.len(),
            track@ == old(track)@,
            offset_in_range(old(track)@, offset as int),
            marker@ == marker_of(position),
            i <= n,
            out@.len() == i,
            forall|k: int|
                0 <= k < i ==> {
                    let c = #[trigger] out@[k]@;
                    let o = old(track)@[k];
                    &&& c.sequence == o.sequence
                    &&& c.start == o.start + offset
                    &&& c.end == o.end + offset
                    &&& c.text == transformed_text(o.text, color_view(color), position)
                },
        decreases n - i,
    {
        let c = &track.cues[i];
        assert(track@[i as int] == c@);
        assert(i64::MIN <= old(track)@[i as int].start + offset <= i64::MAX);
        let text = transform_text(c.text.as_str(), &color, &marker);
        out.push(
            Cue {
                sequence: c.sequence,
                start: c.start.shifted(offset),
                end: c.end.shifted(offset),
                text,
            },
        );
        i = i + 1;
    }
    track.cues = out;
}

/// The cues of `a` followed by those of `b`, numbered 1, 2, ... in that order.
pub open spec fn merged_spec(a: Seq<CueView>, b: Seq<CueView>) -> Seq<CueView> {
    (a + b).map(|i: int, c: CueView| CueView { sequence: (i + 1) as u32, ..c })
}

/// Merges two tracks: the cues of `track1` and then those of `track2`, with
/// sequence numbers 1 to the total in that order; nothing else changes.
pub fn merge(track1: Track, track2: Track) -> (r: Track)
    requires
        track1@.len() + track2@.len() <= u32::MAX,
    ensures
        r@ == merged_spec(track1@, track2@),
{
    let mut all = track1.cues;
    let mut rest = track2.cues;
    let ghost joined = track1@ + track2@;
    all.append(&mut rest);
    assert(all@.map_values(|c: Cue| c@) =~= joined);
    let n = all.len();
    let mut out: Vec<Cue> = Vec::new();
    let mut i: usize = 0;
    while i < n
        invariant
            n == all@.len(),
            n <= u32::MAX,
            all@.map_values(|c: Cue| c@) == joined,
            i <= n,
            out@.len() == i,
            forall|k: int|
                0 <= k < i ==> #[trigger] out@[k]@ == (CueView { sequence: (k + 1) as u32, ..joined[k] }),
        decreases n - i,
    {
        let c = &all[i];
        assert(joined[i as int] == c@);
        out.push(
            Cue { sequence: (i + 1) as u32, start: c.start, end: c.end, text: c.text.clone() },
        );
        i = i + 1;
    }
    let r = Track { cues: out };
    assert(r@ =~= merged_spec(track1@, track2@));
    r
}

/// Some cue of `m` carries the sequence number `k`.
pub open spec fn numbered(m: Seq<CueView>, k: int) -> bool {
    exists|i: int| 0 <= i < m.len() && m[i].sequence == k
}

/// A merge of tracks of lengths `n1` and `n2` has `n1 + n2` cues numbered
/// exactly 1 to `n1 + n2`, each number once, whatever the inputs' numbers.
pub proof fn lemma_merge_numbering(a: Seq<CueView>, b: Seq<CueView>)
    requires
        a.len() + b.len() <= u32::MAX,
    ensures
        merged_spec(a, b).len() == a.len() + b.len(),
        forall|i: int| 0 <= i < merged_spec(a, b).len() ==> #[trigger] merged_spec(a, b)[i].sequence == i + 1,
        forall|k: int| 1 <= k <= a.len() + b.len() ==> #[trigger] numbered(merged_spec(a, b), k),
        forall|i: int, j: int|
            0 <= i < j < merged_spec(a, b).len() ==> #[trigger] merged_spec(a, b)[i].sequence
                != #[trigger] merged_spec(a, b)[j].sequence,
{
    let m = merged_spec(a, b);
    assert forall|k: int| 1 <= k <= a.len() + b.len() implies #[trigger] numbered(m, k) by {
        assert(m[k - 1].sequence == k);
    }
}

/// The transform puts the position marker at the front of a cue's text
/// exactly once: the marker, then a space, then the (coloured) text
/// without its leading `{\an8}`.
pub proof fn lemma_transform_prefix(t: Seq<char>, color: Option<Seq<char>>, p: SubPosition)
    ensures
        transformed_text(t, color, p).subrange(0, 6) == marker_of(p),
        transformed_text(t, color, p)[6] == ' ',
        transformed_text(t, color, p).subrange(7, transformed_text(t, color, p).len() as int)
            == colored(strip_an8(t), color),
{
    let r = transformed_text(t, color, p);
    assert(r.subrange(0, 6) =~= marker_of(p));
    assert(r.subrange(7, r.len() as int) =~= colored(strip_an8(t), color));
}

/// A shift by zero keeps every start and end, and a shift by `d` followed
/// by one by `-d` brings each back to where it was.
pub proof fn lemma_shift_round_trip(
    t0: Seq<CueView>,
    t1: Seq<CueView>,
    t2: Seq<CueView>,
    z: Seq<CueView>,
    d: int,
)
    requires
        shifted_by(t0, z, 0),
        shifted_by(t0, t1, d),
        shifted_by(t1, t2, -d),
    ensures
        forall|i: int| 0 <= i < t0.len() ==> #[trigger] z[i].start == t0[i].start && z[i].end == t0[i].end,
        t2.len() == t0.len(),
        forall|i: int| 0 <= i < t0.len() ==> #[trigger] t2[i].start == t0[i].start && t2[i].end == t0[i].end,
{
    assert forall|i: int| 0 <= i < t0.len() implies #[trigger] t2[i].start == t0[i].start && t2[i].end == t0[i].end by {
        assert(t1[i].start == t0[i].start + d);
        assert(t2[i].start == t1[i].start - d);
        assert(t1[i].end == t0[i].end + d);
        assert(t2[i].end == t1[i].end - d);
    }
    assert forall|i: int| 0 <= i < t0.len() implies #[trigger] z[i].start == t0[i].start && z[i].end == t0[i].end by {
        assert(z[i].start == t0[i].start + 0);
        assert(z[i].end == t0[i].end + 0);
    }
}

} // verus!
