//! Timestamps as signed millisecond counts, and their clock fields.
use vstd::prelude::*;

verus! {

/// Milliseconds in an hour, a minute and a second.
pub const MS_PER_HOUR: u64 = 3_600_000;
pub const MS_PER_MINUTE: u64 = 60_000;
pub const MS_PER_SECOND: u64 = 1_000;

/// A point on a track's time line: signed milliseconds from zero. Offsets
/// may move it below zero; its fields are then read from its magnitude.
#[derive(Clone, Copy, Debug, PartialEq, Eq, Structural)]
pub struct Timestamp {
    pub millis: i64,
}

/// Hours, minutes, seconds and milliseconds of a timestamp.
#[derive(Clone, Copy, Debug, PartialEq, Eq, Structural)]
pub struct TimeFields {
    pub hours: u64,
    pub minutes: u64,
    pub seconds: u64,
    pub millis: u64,
}

/// The total milliseconds that the given fields stand for.
pub open spec fn total_millis(h: int, m: int, s: int, ms: int) -> int {
    ((h * 60 + m) * 60 + s) * 1000 + ms
}

/// The fields are in range: minutes and seconds under 60, milliseconds under 1000.
pub open spec fn fields_in_range(f: TimeFields) -> bool {
    f.minutes < 60 && f.seconds < 60 && f.millis < 1000
}

pub open spec fn abs(x: int) -> int {
    if x < 0 {
        -x
    } else {
        x
    }
}

/// The fields of a millisecond count: those of its magnitude.
pub open spec fn fields_of(t: int) -> TimeFields {
    let a = abs(t);
    TimeFields {
        hours: (a / 3_600_000) as u64,
        minutes: ((a / 60_000) % 60) as u64,
        seconds: ((a / 1000) % 60) as u64,
        millis: (a % 1000) as u64,
    }
}

impl Timestamp {
    /// The timestamp that the fields `f` name.
    pub fn from_fields(f: TimeFields) -> (r: Timestamp)
        requires
            fields_in_range(f),
            total_millis(f.hours as int, f.minutes as int, f.seconds as int, f.millis as int)
                <= i64::MAX,
        ensures
            r.millis == total_millis(
                f.hours as int,
                f.minutes as int,
                f.seconds as int,
                f.millis as int,
            ),
    {
        assert(f.hours * 3_600_000 <= total_millis(
            f.hours as int,
            f.minutes as int,
            f.seconds as int,
            f.millis as int,
        )) by (nonlinear_arith)
            requires
                f.minutes < 60,
                f.seconds < 60,
                f.millis < 1000,
        ;
        let t = f.hours * MS_PER_HOUR + f.minutes * MS_PER_MINUTE + f.seconds * MS_PER_SECOND
            + f.millis;
        assert(t == total_millis(f.hours as int, f.minutes as int, f.seconds as int, f.millis as int))
            by (nonlinear_arith)
            requires
                t == f.hours * 3_600_000 + f.minutes * 60_000 + f.seconds * 1000 + f.millis,
        ;
        Timestamp { millis: t as i64 }
    }

    /// The hours, minutes, seconds and milliseconds of this timestamp's magnitude.
    pub fn fields(&self) -> (r: TimeFields)
        ensures
            r == fields_of(self.millis as int),
            fields_in_range(r),
    {
        let a: u64 = if self.millis < 0 {
            ((-(self.millis + 1)) as u64) + 1
        } else {
            self.millis as u64
        };
        assert(a == abs(self.millis as int));
        TimeFields {
            hours: a / MS_PER_HOUR,
            minutes: (a / MS_PER_MINUTE) % 60,
            seconds: (a / MS_PER_SECOND) % 60,
            millis: a % 1000,
        }
    }

    /// This timestamp moved by `offset` milliseconds.
    pub fn shifted(&self, offset: i64) -> (r: Timestamp)
        requires
            i64::MIN <= self.millis + offset <= i64::MAX,
        ensures
            r.millis == self.millis + offset,
    {
        Timestamp { millis: self.millis + offset }
    }
}

/// Reading the fields of the timestamp that fields in range name gives
/// those fields back.
pub proof fn lemma_fields_round_trip(f: TimeFields)
    requires
        fields_in_range(f),
    ensures
        fields_of(total_millis(f.hours as int, f.minutes as int, f.seconds as int, f.millis as int))
            == f,
{
    let h = f.hours as int;
    let m = f.minutes as int;
    let s = f.seconds as int;
    let ms = f.millis as int;
    let t = total_millis(h, m, s, ms);
    assert(t >= 0) by (nonlinear_arith)
        requires
            t == ((h * 60 + m) * 60 + s) * 1000 + ms,
            h >= 0,
            m >= 0,
            s >= 0,
            ms >= 0,
    ;
    assert(t % 1000 == ms && t / 1000 == (h * 60 + m) * 60 + s) by (nonlinear_arith)
        requires
            t == ((h * 60 + m) * 60 + s) * 1000 + ms,
            0 <= ms < 1000,
            h >= 0,
            0 <= m,
            0 <= s,
    ;
    let t1 = (h * 60 + m) * 60 + s;
    assert(t1 % 60 == s && t1 / 60 == h * 60 + m) by (nonlinear_arith)
        requires
            t1 == (h * 60 + m) * 60 + s,
            0 <= s < 60,
            h >= 0,
            0 <= m,
    ;
    assert((h * 60 + m) % 60 == m && (h * 60 + m) / 60 == h) by (nonlinear_arith)
        requires
            0 <= m < 60,
            h >= 0,
    ;
    assert(t / 60_000 == t1 / 60) by {
        vstd::arithmetic::div_mod::lemma_div_denominator(t, 1000, 60);
    }
    assert(t / 3_600_000 == (t1 / 60) / 60) by {
        vstd::arithmetic::div_mod::lemma_div_denominator(t, 60_000, 60);
    }
}

} // verus!
