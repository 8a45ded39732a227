//! Reading subtitle documents into tracks and writing tracks as SubRip,
//! through the codecs of `rsubs_lib`.
use vstd::prelude::*;
use crate::matcher::{srt_seq, vtt_seq};
use crate::substation::{styles_safe, styles_safe_exec};
use crate::text::chars_of;
use crate::naming::{eq_ignore_case, equals_ignore_case, extension_spec, file_extension};
use crate::timing::{fields_of, total_millis, TimeFields, Timestamp};
use crate::track::{Cue, CueView, Track};

verus! {

/// A time of day as the codecs hold it.
#[derive(Clone, Copy, Debug, PartialEq, Eq, Structural)]
pub struct ClockTime {
    pub hour: u8,
    pub minute: u8,
    pub second: u8,
    pub milli: u16,
}

/// A cue as a codec reads or writes it.
#[derive(Debug)]
pub struct RawCue {
    pub sequence: u32,
    pub start: ClockTime,
    pub end: ClockTime,
    pub text: String,
}

pub ghost struct RawCueView {
    pub sequence: u32,
    pub start: ClockTime,
    pub end: ClockTime,
    pub text: Seq<char>,
}

impl View for RawCue {
    type V = RawCueView;

    open spec fn view(&self) -> RawCueView {
        RawCueView { sequence: self.sequence, start: self.start, end: self.end, text: self.text@ }
    }
}

/// Why a subtitle document could not be read.
#[derive(Debug)]
pub enum SubError {
    /// The file's extension names no supported format; it is given here.
    UnsupportedFormat(String),
    /// The document does not parse in the format that its extension names.
    MalformedSubtitle,
}

/// The formats that documents are read from.
#[derive(Clone, Copy, Debug, PartialEq, Eq, Structural)]
pub enum Format {
    SubRip,
    WebVtt,
    SubStation,
}

/// The cues that `rsubs_lib` reads from a SubRip document, or None where it is malformed.
pub uninterp spec fn srt_parse_of(content: Seq<char>) -> Option<Seq<RawCueView>>;

/// The cues that `rsubs_lib` reads from a WebVTT document, numbered from 1, or None.
pub uninterp spec fn vtt_parse_of(content: Seq<char>) -> Option<Seq<RawCueView>>;

/// The cues that `rsubs_lib` reads from a SubStation document, numbered from 1, or None.
pub uninterp spec fn ssa_parse_of(content: Seq<char>) -> Option<Seq<RawCueView>>;

/// The cues are numbered 1, 2, ... in order (as far as `u32` counts).
pub open spec fn numbered_from_one(v: Seq<RawCueView>) -> bool {
    forall|i: int| 0 <= i < v.len() && i < u32::MAX ==> #[trigger] v[i].sequence == i + 1
}

/// The SubRip document that `rsubs_lib` writes for the given cues.
pub uninterp spec fn srt_text_of(cues: Seq<RawCueView>) -> Seq<char>;

/// The clock fields are those of a time of day.
pub open spec fn clock_valid(c: ClockTime) -> bool {
    c.hour < 24 && c.minute < 60 && c.second < 60 && c.milli < 1000
}

pub open spec fn raw_valid(v: Seq<RawCueView>) -> bool {
    forall|i: int| 0 <= i < v.len() ==> clock_valid(#[trigger] v[i].start) && clock_valid(v[i].end)
}

pub open spec fn raw_views(v: Seq<RawCue>) -> Seq<RawCueView> {
    v.map_values(|c: RawCue| c@)
}

/// Relies on `rsubs_lib::SRT::parse`: the cues of a SubRip document, or
/// None where it reports an error; the clock fields are read with
/// `time::Time`'s accessors, which keep them within a day.
#[verifier::external_body]
fn parse_srt(content: &str) -> (r: Option<Vec<RawCue>>)
    ensures
        match r {
            Some(v) => srt_parse_of(content@) == Some(raw_views(v@)) && raw_valid(raw_views(v@)),
            None => srt_parse_of(content@) is None,
        },
{
    let lines = rsubs_lib::SRT::parse(content).ok()?.lines;
    Some(lines.into_iter().map(|l| RawCue {
        sequence: l.sequence_number,
        start: ClockTime { hour: l.start.hour(), minute: l.start.minute(), second: l.start.second(), milli: l.start.millisecond() },
        end: ClockTime { hour: l.end.hour(), minute: l.end.minute(), second: l.end.second(), milli: l.end.millisecond() },
        text: l.text,
    }).collect())
}

/// Relies on `rsubs_lib::VTT::parse` and `VTT::to_srt`: the cue blocks of a
/// WebVTT document numbered from 1, or None where parsing reports an error;
/// the clock fields are read with `time::Time`'s accessors. The parser
/// panics on a document without a non-blank line, which a visible ASCII
/// character rules out.
#[verifier::external_body]
fn parse_vtt(content: &str) -> (r: Option<Vec<RawCue>>)
    requires
        has_visible(content@),
    ensures
        match r {
            Some(v) => vtt_parse_of(content@) == Some(raw_views(v@)) && raw_valid(raw_views(v@))
                && numbered_from_one(raw_views(v@)),
            None => vtt_parse_of(content@) is None,
        },
{
    let lines = rsubs_lib::VTT::parse(content).ok()?.to_srt().lines;
    Some(lines.into_iter().map(|l| RawCue {
        sequence: l.sequence_number,
        start: ClockTime { hour: l.start.hour(), minute: l.start.minute(), second: l.start.second(), milli: l.start.millisecond() },
        end: ClockTime { hour: l.end.hour(), minute: l.end.minute(), second: l.end.second(), milli: l.end.millisecond() },
        text: l.text,
    }).collect())
}

/// Relies on `rsubs_lib::SSA::parse` and `SSA::to_srt`: the events of a
/// SubStation document numbered from 1, or None where parsing reports an
/// error; the clock fields are read with `time::Time`'s accessors. The
/// parser panics on an alignment other than 1 to 9 and cuts colour fields
/// by bytes, which `styles_safe` rules out.
#[verifier::external_body]
fn parse_ssa(content: &str) -> (r: Option<Vec<RawCue>>)
    requires
        styles_safe(content@),
    ensures
        match r {
            Some(v) => ssa_parse_of(content@) == Some(raw_views(v@)) && raw_valid(raw_views(v@))
                && numbered_from_one(raw_views(v@)),
            None => ssa_parse_of(content@) is None,
        },
{
    let lines = rsubs_lib::SSA::parse(content).ok()?.to_srt().lines;
    Some(lines.into_iter().map(|l| RawCue {
        sequence: l.sequence_number,
        start: ClockTime { hour: l.start.hour(), minute: l.start.minute(), second: l.start.second(), milli: l.start.millisecond() },
        end: ClockTime { hour: l.end.hour(), minute: l.end.minute(), second: l.end.second(), milli: l.end.millisecond() },
        text: l.text,
    }).collect())
}

/// Relies on `rsubs_lib`'s `Display` for `SRT`, over times built with
/// `time::Time::from_hms_milli`, which accepts every valid clock.
#[verifier::external_body]
fn render_srt(cues: &Vec<RawCue>) -> (r: String)
    requires
        raw_valid(raw_views(cues@)),
    ensures
        r@ == srt_text_of(raw_views(cues@)),
{
    let lines = cues.iter().map(|c| rsubs_lib::SRTLine {
        sequence_number: c.sequence,
        start: time::Time::from_hms_milli(c.start.hour, c.start.minute, c.start.second, c.start.milli).unwrap(),
        end: time::Time::from_hms_milli(c.end.hour, c.end.minute, c.end.second, c.end.milli).unwrap(),
        text: c.text.clone(),
    }).collect();
    rsubs_lib::SRT { lines }.to_string()
}

/// The milliseconds from midnight of a clock time.
pub open spec fn clock_millis(c: ClockTime) -> int {
    total_millis(c.hour as int, c.minute as int, c.second as int, c.milli as int)
}

/// The clock fields of a millisecond count (of its magnitude).
pub open spec fn clock_of(t: int) -> ClockTime {
    let f = fields_of(t);
    ClockTime { hour: f.hours as u8, minute: f.minutes as u8, second: f.seconds as u8, milli: f.millis as u16 }
}

/// A codec cue in the timed-text model.
pub open spec fn cue_of_raw(c: RawCueView) -> CueView {
    CueView { sequence: c.sequence, start: clock_millis(c.start), end: clock_millis(c.end), text: c.text }
}

pub open spec fn cues_of_raw(v: Seq<RawCueView>) -> Seq<CueView> {
    v.map_values(|c: RawCueView| cue_of_raw(c))
}

/// A cue of the model as the SubRip codec writes it.
pub open spec fn raw_of_cue(c: CueView) -> RawCueView {
    RawCueView { sequence: c.sequence, start: clock_of(c.start), end: clock_of(c.end), text: c.text }
}

/// Every start and end of the track lies, in magnitude, within a day, as
/// SubRip times must.
pub open spec fn renderable(t: Seq<CueView>) -> bool {
    forall|i: int|
        0 <= i < t.len() ==> fields_of(#[trigger] t[i].start).hours < 24 && fields_of(t[i].end).hours < 24
}

impl Timestamp {
    /// The timestamp of a clock time.
    pub fn from_clock(c: ClockTime) -> (r: Timestamp)
        requires
            clock_valid(c),
        ensures
            r.millis == clock_millis(c),
    {
        let f = TimeFields { hours: c.hour as u64, minutes: c.minute as u64, seconds: c.second as u64, millis: c.milli as u64 };
        assert(total_millis(f.hours as int, f.minutes as int, f.seconds as int, f.millis as int) < 100_000_000)
            by (nonlinear_arith)
            requires
                f.hours < 24,
                f.minutes < 60,
                f.seconds < 60,
                f.millis < 1000,
        ;
        Timestamp::from_fields(f)
    }

    /// The clock fields of this timestamp's magnitude, where it is under a day.
    pub fn to_clock(&self) -> (r: Option<ClockTime>)
        ensures
            r is Some <==> fields_of(self.millis as int).hours < 24,
            r matches Some(c) ==> c == clock_of(self.millis as int) && clock_valid(c),
    {
        let f = self.fields();
        if f.hours >= 24 {
            None
        } else {
            Some(ClockTime { hour: f.hours as u8, minute: f.minutes as u8, second: f.seconds as u8, milli: f.millis as u16 })
        }
    }
}

/// The track of the codec cues `raw`.
pub fn track_from_raw(raw: &Vec<RawCue>) -> (r: Track)
    requires
        raw_valid(raw_views(raw@)),
    ensures
        r@ == cues_of_raw(raw_views(raw@)),
{
    let n = raw.len();
    let mut cues: Vec<Cue> = Vec::new();
    let mut i: usize = 0;
    while i < n
        invariant
            n == raw@.len(),
            raw_valid(raw_views(raw@)),
            i <= n,
            cues@.len() == i,
            forall|k: int| 0 <= k < i ==> #[trigger] cues@[k]@ == cue_of_raw(raw@[k]@),
        decreases n - i,
    {
        let c = &raw[i];
        assert(raw_views(raw@)[i as int] == c@);
        assert(clock_valid(raw_views(raw@)[i as int].start));
        cues.push(Cue {
            sequence: c.sequence,
            start: Timestamp::from_clock(c.start),
            end: Timestamp::from_clock(c.end),
            text: c.text.clone(),
        });
        i = i + 1;
    }
    let r = Track { cues };
    assert(r@ =~= cues_of_raw(raw_views(raw@)));
    r
}

/// Writes a track as a SubRip document, or gives None where a start or an
/// end lies a day or more from zero.
pub fn to_srt_text(track: &Track) -> (r: Option<String>)
    ensures
        r is Some <==> renderable(track@),
        r matches Some(s) ==> s@ == srt_text_of(track@.map_values(|c: CueView| raw_of_cue(c))),
{
    let n = track.cues.len();
    let mut raw: Vec<RawCue> = Vec::new();
    let mut i: usize = 0;
    while i < n
        invariant
            n == track.cues@.len(),
            i <= n,
            raw@.len() == i,
            renderable(track@.subrange(0, i as int)),
            raw_valid(raw_views(raw@)),
            forall|k: int| 0 <= k < i ==> #[trigger] raw@[k]@ == raw_of_cue(track@[k]),
        decreases n - i,
    {
        let c = &track.cues[i];
        assert(track@[i as int] == c@);
        let s = c.start.to_clock();
        let e = c.end.to_clock();
        match (s, e) {
            (Some(s), Some(e)) => {
                let ghost prev = raw_views(raw@);
                raw.push(RawCue { sequence: c.sequence, start: s, end: e, text: c.text.clone() });
                assert(raw_views(raw@) =~= prev.push(raw@[i as int]@));
            },
            _ => {
                assert(!(fields_of(track@[i as int].start).hours < 24 && fields_of(track@[i as int].end).hours < 24));
                assert(!renderable(track@));
                return None;
            },
        }
        assert(renderable(track@.subrange(0, i + 1))) by {
            assert forall|k: int| 0 <= k < i + 1 implies #[trigger] track@.subrange(0, i + 1)[k]
                == track@[k] by {}
            assert forall|k: int| 0 <= k < i implies #[trigger] track@.subrange(0, i as int)[k]
                == track@[k] by {}
        }
        i = i + 1;
    }
    assert(track@.subrange(0, n as int) =~= track@);
    assert(raw_views(raw@) =~= track@.map_values(|c: CueView| raw_of_cue(c)));
    Some(render_srt(&raw))
}

/// The extension of a file name, or nothing where it has none.
pub open spec fn ext_or_empty(name: Seq<char>) -> Seq<char> {
    match extension_spec(name) {
        Some(e) => e,
        None => Seq::empty(),
    }
}

pub open spec fn ass_seq() -> Seq<char> {
    seq!['a', 's', 's']
}

pub open spec fn ssa_seq() -> Seq<char> {
    seq!['s', 's', 'a']
}

/// The format that a file name's extension names, in any case of letters:
/// `srt`, `vtt`, and `ass` or `ssa`.
pub open spec fn format_spec(name: Seq<char>) -> Option<Format> {
    let e = ext_or_empty(name);
    if eq_ignore_case(e, srt_seq()) {
        Some(Format::SubRip)
    } else if eq_ignore_case(e, vtt_seq()) {
        Some(Format::WebVtt)
    } else if eq_ignore_case(e, ass_seq()) || eq_ignore_case(e, ssa_seq()) {
        Some(Format::SubStation)
    } else {
        None
    }
}

/// A WebVTT document opens with `WEBVTT`, so one without any visible ASCII
/// character is malformed.
pub open spec fn has_visible(s: Seq<char>) -> bool {
    exists|i: int| 0 <= i < s.len() && '!' <= #[trigger] s[i] && s[i] <= '~'
}

/// Whether `s` holds a visible ASCII character.
pub fn has_visible_char(s: &str) -> (r: bool)
    ensures
        r == has_visible(s@),
{
    let v = chars_of(s);
    let n = v.len();
    let mut i: usize = 0;
    while i < n
        invariant
            n == s@.len(),
            v@ == s@,
            i <= n,
            forall|k: int| 0 <= k < i ==> !('!' <= #[trigger] s@[k] && s@[k] <= '~'),
        decreases n - i,
    {
        let c = v[i];
        if '!' <= c && c <= '~' {
            return true;
        }
        i = i + 1;
    }
    false
}

/// What the codec of a format reads from a document.
pub open spec fn parsed_by(f: Format, content: Seq<char>) -> Option<Seq<RawCueView>> {
    match f {
        Format::SubRip => srt_parse_of(content),
        Format::WebVtt => if has_visible(content) {
            vtt_parse_of(content)
        } else {
            None
        },
        Format::SubStation => if styles_safe(content) {
            ssa_parse_of(content)
        } else {
            None
        },
    }
}

/// Reads the document `content` of the file `file_name` into a track, in
/// the format that the name's extension gives: SubRip for `srt`, WebVTT for
/// `vtt`, SubStation for `ass` and `ssa`, in any case of letters. Any other
/// extension is refused with that extension. A document that its codec does
/// not read is malformed; so is a WebVTT document without a visible
/// character, and a SubStation document whose style lines fail
/// `styles_safe`. WebVTT and SubStation cues come numbered from 1.
pub fn load_sub(file_name: &str, content: &str) -> (r: Result<Track, SubError>)
    ensures
        match format_spec(file_name@) {
            None => r matches Err(SubError::UnsupportedFormat(e)) && e@ == ext_or_empty(file_name@),
            Some(f) => match parsed_by(f, content@) {
                Some(raw) => r matches Ok(t) && t@ == cues_of_raw(raw),
                None => r matches Err(SubError::MalformedSubtitle),
            },
        },
        format_spec(file_name@) != Some(Format::SubRip) ==> (r matches Ok(t) ==> forall|i: int|
            0 <= i < t@.len() && i < u32::MAX ==> #[trigger] t@[i].sequence == i + 1),
{
    let ext = match file_extension(file_name) {
        Some(e) => e,
        None => String::new(),
    };
    proof {
        reveal_strlit("srt");
        reveal_strlit("vtt");
        reveal_strlit("ass");
        reveal_strlit("ssa");
        assert("srt"@ == srt_seq());
        assert("vtt"@ == vtt_seq());
        assert("ass"@ == ass_seq());
        assert("ssa"@ == ssa_seq());
    }
    let parsed = if equals_ignore_case(ext.as_str(), "srt") {
        parse_srt(content)
    } else if equals_ignore_case(ext.as_str(), "vtt") {
        if has_visible_char(content) {
            parse_vtt(content)
        } else {
            None
        }
    } else if equals_ignore_case(ext.as_str(), "ass") || equals_ignore_case(ext.as_str(), "ssa") {
        if styles_safe_exec(content) {
            parse_ssa(content)
        } else {
            None
        }
    } else {
        return Err(SubError::UnsupportedFormat(ext));
    };
    match parsed {
        Some(raw) => {
            let t = track_from_raw(&raw);
            assert(forall|i: int| 0 <= i < t@.len() ==> #[trigger] t@[i].sequence == raw@[i].sequence) by {
                assert forall|i: int| 0 <= i < t@.len() implies #[trigger] t@[i].sequence == raw@[i].sequence by {
                    assert(raw_views(raw@)[i] == raw@[i]@);
                }
            }
            Ok(t)
        },
        None => Err(SubError::MalformedSubtitle),
    }
}

} // verus!
