//! Points in time, and their rendering as text.

use std::fmt::Write;
use vstd::prelude::*;
use crate::text::copy_text;

verus! {

/// A point in time: the whole seconds since 1970-01-01 00:00:00 UTC, rounded
/// down, and the nanoseconds into that second.
#[derive(Clone, Copy, PartialEq, Eq, Structural, Debug)]
pub struct Timestamp {
    pub secs: i64,
    pub nanos: u32,
}

/// Whether `a` is later than `b`.
pub open spec fn later(a: Timestamp, b: Timestamp) -> bool {
    a.secs > b.secs || (a.secs == b.secs && a.nanos > b.nanos)
}

/// The later of a time seen so far, if any, and a new one; the earlier-seen
/// time where the two are equal.
pub open spec fn latest(seen: Option<Timestamp>, new: Timestamp) -> Timestamp {
    match seen {
        Some(t) => if later(new, t) {
            new
        } else {
            t
        },
        None => new,
    }
}

/// The later of two times of which either may be missing.
pub open spec fn latest_known(seen: Option<Timestamp>, new: Option<Timestamp>) -> Option<
    Timestamp,
> {
    match new {
        Some(t) => Some(latest(seen, t)),
        None => seen,
    }
}

/// The whole seconds since 1970 of a time; 0 where the time is missing or
/// lies before 1970.
pub open spec fn whole_seconds(t: Option<Timestamp>) -> u64 {
    match t {
        Some(t) => if t.secs >= 0 {
            t.secs as u64
        } else {
            0
        },
        None => 0,
    }
}

impl Timestamp {
    /// Tells whether this time is later than `other`.
    pub fn is_later_than(&self, other: &Timestamp) -> (r: bool)
        ensures
            r == later(*self, *other),
    {
        self.secs > other.secs || (self.secs == other.secs && self.nanos > other.nanos)
    }
}

/// The later of a time seen so far, if any, and a new one, if any.
pub fn later_of(seen: Option<Timestamp>, new: Option<Timestamp>) -> (r: Option<Timestamp>)
    ensures
        r == latest_known(seen, new),
{
    match new {
        Some(t) => match seen {
            Some(s) => if t.is_later_than(&s) {
                Some(t)
            } else {
                Some(s)
            },
            None => Some(t),
        },
        None => seen,
    }
}

/// The whole seconds since 1970 of a time; 0 where the time is missing or
/// lies before 1970.
pub fn seconds_of(t: Option<Timestamp>) -> (r: u64)
    ensures
        r == whole_seconds(t),
{
    match t {
        Some(t) => if t.secs >= 0 {
            t.secs as u64
        } else {
            0
        },
        None => 0,
    }
}

/// The nanoseconds from 1970-01-01 00:00:00 UTC to a point in time;
/// negative before 1970.
pub open spec fn nanos_since_1970(t: Timestamp) -> int {
    t.secs * 1_000_000_000 + t.nanos
}

/// The nanoseconds from 1970 to the point that lies `secs` seconds and
/// `nanos` nanoseconds behind it, or before it where `before` is set.
pub open spec fn offset_nanos(before: bool, secs: u64, nanos: u32) -> int {
    if before {
        -(secs * 1_000_000_000 + nanos)
    } else {
        secs * 1_000_000_000 + nanos
    }
}

/// The last point in time that a `Timestamp` can hold.
pub open spec fn latest_time() -> Timestamp {
    Timestamp { secs: i64::MAX, nanos: 999_999_999 }
}

/// The first point in time that a `Timestamp` can hold.
pub open spec fn earliest_time() -> Timestamp {
    Timestamp { secs: i64::MIN, nanos: 0 }
}

/// The point in time at a distance from 1970: the point itself, with less
/// than a second of nanoseconds, where a `Timestamp` can hold it, and the
/// last or first point that it can hold where the distance is too great.
pub open spec fn time_at(before: bool, secs: u64, nanos: u32) -> Timestamp {
    let offset = offset_nanos(before, secs, nanos);
    if offset > nanos_since_1970(latest_time()) {
        latest_time()
    } else if offset < nanos_since_1970(earliest_time()) {
        earliest_time()
    } else {
        Timestamp { secs: (offset / 1_000_000_000) as i64, nanos: (offset % 1_000_000_000) as u32 }
    }
}

/// A point in time is told by its distance from 1970.
pub proof fn lemma_time_at(before: bool, secs: u64, nanos: u32)
    ensures
        time_at(before, secs, nanos).nanos < 1_000_000_000,
        nanos_since_1970(earliest_time()) <= offset_nanos(before, secs, nanos) <= nanos_since_1970(
            latest_time(),
        ) ==> nanos_since_1970(time_at(before, secs, nanos)) == offset_nanos(before, secs, nanos),
{
}

/// Makes a point in time out of its distance from 1970-01-01 00:00:00 UTC:
/// `secs` seconds and `nanos` nanoseconds behind it, or before it where
/// `before` is set.
pub fn timestamp_of(before: bool, secs: u64, nanos: u32) -> (r: Timestamp)
    ensures
        r == time_at(before, secs, nanos),
{
    let carry: u64 = (nanos / 1_000_000_000) as u64;
    let rest: u32 = nanos % 1_000_000_000;
    let whole: u64 = match secs.checked_add(carry) {
        Some(whole) => whole,
        None => u64::MAX,
    };
    if whole > 0x7fff_ffff_ffff_ffff {
        if before {
            Timestamp { secs: i64::MIN, nanos: 0 }
        } else {
            Timestamp { secs: i64::MAX, nanos: 999_999_999 }
        }
    } else if !before {
        Timestamp { secs: whole as i64, nanos: rest }
    } else if rest == 0 {
        Timestamp { secs: -(whole as i64), nanos: 0 }
    } else {
        Timestamp { secs: -(whole as i64) - 1, nanos: 1_000_000_000 - rest }
    }
}

/// The format in which a point in time is written: year, month, day,
/// hour, minute and second.
pub open spec fn clock_format() -> Seq<char> {
    "%Y-%m-%d %H:%M:%S"@
}

/// The date and time in UTC that lies `secs` seconds after 1970-01-01
/// 00:00:00, written in `format`; none where the calendar does not reach
/// that far or the format is none that can be written.
pub uninterp spec fn utc_clock_text(secs: i64, format: Seq<char>) -> Option<Seq<char>>;

/// Renders a count of seconds since 1970 as date and time in UTC, with
/// `chrono::DateTime::from_timestamp` and `format`. The result is the text
/// named `utc_clock_text`, and in the clock format there is one for the
/// count 0: the calendar holds 1970.
#[verifier::external_body]
fn utc_text(secs: i64, format: &str) -> (r: Option<String>)
    ensures
        match r {
            Some(s) => utc_clock_text(secs, format@) == Some(s@),
            None => utc_clock_text(secs, format@) is None,
        },
        secs == 0 && format@ == clock_format() ==> r is Some,
{
    let at = chrono::DateTime::<chrono::Utc>::from_timestamp(secs, 0)?;
    let mut text = String::new();
    write!(text, "{}", at.format(format)).ok()?;
    Some(text)
}

/// Renders a point in time as date and time of the machine's own time zone,
/// with `chrono::DateTime::from_timestamp`, `with_timezone` and `format`.
/// The text depends on the time zone. In the clock format two things hold
/// in every zone: for a time with less than a second of nanoseconds there
/// is a text exactly where the calendar reaches the time, that is, where
/// there is one in UTC; and a text has at least 19 characters, four or more
/// for the year and two for each other field.
#[verifier::external_body]
fn local_text(secs: i64, nanos: u32, format: &str) -> (r: Option<String>)
    ensures
        nanos < 1_000_000_000 && format@ == clock_format() ==> (r is Some <==> utc_clock_text(
            secs,
            format@,
        ) is Some),
        format@ == clock_format() ==> (r matches Some(s) ==> s@.len() >= 19),
{
    let at = chrono::DateTime::<chrono::Utc>::from_timestamp(secs, nanos)?;
    let mut text = String::new();
    write!(text, "{}", at.with_timezone(&chrono::Local).format(format)).ok()?;
    Some(text)
}

/// A count of seconds read as a signed number of 64 bits.
pub open spec fn as_signed(secs: u64) -> i64 {
    if secs <= i64::MAX as u64 {
        secs as i64
    } else {
        (secs - 0x1_0000_0000_0000_0000) as i64
    }
}

/// The label of a last-activity time, given the clock text of its seconds
/// and that of the count 0: `Never` for 0; else the clock text, and where
/// there is none, the clock text of 0.
pub open spec fn label_of(secs: u64, clock: Option<Seq<char>>, epoch: Seq<char>) -> Seq<char> {
    if secs == 0 {
        "Never"@
    } else {
        match clock {
            Some(text) => text,
            None => epoch,
        }
    }
}

/// The label of a last-activity time.
pub open spec fn timestamp_text(secs: u64) -> Seq<char> {
    label_of(
        secs,
        utc_clock_text(as_signed(secs), clock_format()),
        match utc_clock_text(0, clock_format()) {
            Some(text) => text,
            None => Seq::empty(),
        },
    )
}

/// Chooses the label of a last-activity time of `secs` seconds, given the
/// clock text of that time, if the calendar has one, and the clock text of
/// the count 0.
pub fn timestamp_label(secs: u64, clock: Option<String>, epoch: String) -> (r: String)
    ensures
        r@ == label_of(
            secs,
            match clock {
                Some(text) => Some(text@),
                None => None,
            },
            epoch@,
        ),
{
    if secs == 0 {
        copy_text("Never")
    } else {
        match clock {
            Some(text) => text,
            None => epoch,
        }
    }
}

/// Renders a last-activity time, in seconds since 1970, as text: `Never` for
/// 0, else date and time in UTC.
pub fn format_timestamp(secs: u64) -> (r: String)
    ensures
        r@ == timestamp_text(secs),
{
    let signed: i64 = if secs <= 0x7fff_ffff_ffff_ffff {
        secs as i64
    } else {
        -((u64::MAX - secs) as i64) - 1
    };
    let epoch = match utc_text(0, "%Y-%m-%d %H:%M:%S") {
        Some(text) => text,
        None => String::new(),
    };
    timestamp_label(secs, utc_text(signed, "%Y-%m-%d %H:%M:%S"), epoch)
}

/// Whether `text` can be the rendering of the time of the latest change:
/// `Unknown` where no time is known or the calendar does not reach it, and
/// for a time that the calendar reaches a date and time of at least 19
/// characters. Which date and time it is depends on the machine's time zone.
/// Of a time with a second or more of nanoseconds nothing is said.
pub open spec fn is_rendering(time: Option<Timestamp>, text: Seq<char>) -> bool {
    match time {
        None => text == "Unknown"@,
        Some(t) => t.nanos < 1_000_000_000 ==> if utc_clock_text(t.secs, clock_format()) is Some {
            text.len() >= 19 && text != "Unknown"@
        } else {
            text == "Unknown"@
        },
    }
}

/// Renders the time of the latest change as date and time of the machine's
/// own time zone; `Unknown` where no time is known or the calendar does not
/// reach it.
pub fn format_system_time(time: Option<Timestamp>) -> (r: String)
    ensures
        is_rendering(time, r@),
        time is None ==> r@ == "Unknown"@,
        time matches Some(t) && t.nanos < 1_000_000_000 && utc_clock_text(t.secs, clock_format())
            is Some ==> r@.len() >= 19 && r@ != "Unknown"@,
        time matches Some(t) && t.nanos < 1_000_000_000 && utc_clock_text(t.secs, clock_format())
            is None ==> r@ == "Unknown"@,
{
    proof {
        reveal_strlit("Unknown");
    }
    match time {
        Some(t) => modified_label(local_text(t.secs, t.nanos, "%Y-%m-%d %H:%M:%S")),
        None => copy_text("Unknown"),
    }
}

/// The text for the time of the latest change, given its rendering: the
/// rendering, or `Unknown` where there is none.
pub fn modified_label(rendered: Option<String>) -> (r: String)
    ensures
        r@ == match rendered {
            Some(text) => text@,
            None => "Unknown"@,
        },
{
    match rendered {
        Some(text) => text,
        None => copy_text("Unknown"),
    }
}

} // verus!
