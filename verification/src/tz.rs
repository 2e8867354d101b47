//! The boundary to the host's clock and timezone rules.  Everything here
//! goes from plain values to plain values; only chrono can read the system
//! clock, resolve a naive local time against the zone's rule table, or
//! render with arbitrary strftime templates, so those calls are trusted.

use std::fmt::Write;

use chrono::Datelike;
use chrono::TimeZone;
use chrono::Timelike;
use vstd::prelude::*;

use crate::calendar::spec_epoch_of;
use crate::calendar::spec_valid_md;

verus! {

/// A point in time as the local timezone reads it: civil fields plus the
/// zone's offset from UTC at that instant.
#[derive(Clone, Copy, Debug, PartialEq, Eq, Structural)]
pub struct LocalStamp {
    pub year: i32,
    pub month: u32,
    pub day: u32,
    pub hour: u32,
    pub minute: u32,
    pub second: u32,
    pub offset_secs: i32,
}

impl LocalStamp {
    /// The fields form a real date and time, and the offset is less than a
    /// day in magnitude.
    pub open spec fn wf(self) -> bool {
        &&& spec_valid_md(self.year as int, self.month as int, self.day as int)
        &&& self.hour < 24
        &&& self.minute < 60
        &&& self.second < 60
        &&& -86400 < self.offset_secs < 86400
        &&& -262144 <= self.year <= 262143
    }

    /// The instant this stamp stands for, in seconds since the UTC epoch.
    pub open spec fn epoch(self) -> int {
        spec_epoch_of(
            self.year as int,
            self.month as int,
            self.day as int,
            self.hour as int,
            self.minute as int,
            self.second as int,
            self.offset_secs as int,
        )
    }
}

/// What rendering a strftime template over the given local civil fields
/// and offset yields: the output text, or nothing when the template cannot
/// be rendered.  The result depends on its arguments alone.
pub uninterp spec fn spec_rendered(
    template: Seq<char>,
    y: int,
    mo: int,
    d: int,
    h: int,
    mi: int,
    off: int,
) -> Option<Seq<char>>;

/// Relies on chrono's `Local::now`: the current local time.  Nothing can
/// be promised of which instant comes back, only that chrono hands out a
/// real calendar date and time with an offset below one day, within
/// chrono's own year range.  (chrono aborts if the system clock is outside
/// that range; no argument can exclude that here.)
#[verifier::external_body]
pub fn now_local() -> (r: LocalStamp)
    ensures
        r.wf(),
{
    let now = chrono::Local::now();
    LocalStamp {
        year: now.year(),
        month: now.month(),
        day: now.day(),
        hour: now.hour(),
        minute: now.minute(),
        second: now.second(),
        offset_secs: now.offset().local_minus_utc(),
    }
}

/// Relies on chrono's `TimeZone::from_local_datetime` on `Local` and
/// `MappedLocalTime::single`: a naive local reading resolves to the zone's
/// offset when the mapping is unique, and to nothing when the reading
/// falls in a fold or gap of local time.  The civil fields of a unique
/// resolution are the ones given.
#[verifier::external_body]
pub fn resolve_local(y: i32, mo: u32, d: u32, h: u32, mi: u32, sec: u32) -> (r: Option<i32>)
    requires
        spec_valid_md(y as int, mo as int, d as int),
        0 <= y <= 9999,
        h < 24,
        mi < 60,
        sec < 60,
    ensures
        r matches Some(off) ==> -86400 < off < 86400,
{
    let date = chrono::NaiveDate::from_ymd_opt(y, mo, d)?;
    let ndt = date.and_hms_opt(h, mi, sec)?;
    match chrono::Local.from_local_datetime(&ndt).single() {
        Some(dt) => Some(dt.offset().local_minus_utc()),
        None => None,
    }
}

/// Relies on chrono's `FixedOffset::east_opt`, `from_local_datetime` (a
/// fixed offset maps every naive reading uniquely) and
/// `DateTime::with_timezone`: converting an offset-bearing reading to the
/// local timezone keeps the instant, and yields real calendar fields.
#[verifier::external_body]
pub fn offset_to_local(y: i32, mo: u32, d: u32, h: u32, mi: u32, sec: u32, off: i32) -> (r:
    LocalStamp)
    requires
        spec_valid_md(y as int, mo as int, d as int),
        0 <= y <= 9999,
        h < 24,
        mi < 60,
        sec < 60,
        -86400 < off < 86400,
    ensures
        r.wf(),
        -1 <= r.year <= 10000,
        r.epoch() == spec_epoch_of(
            y as int,
            mo as int,
            d as int,
            h as int,
            mi as int,
            sec as int,
            off as int,
        ),
{
    let date = chrono::NaiveDate::from_ymd_opt(y, mo, d).unwrap();
    let ndt = date.and_hms_opt(h, mi, sec).unwrap();
    let tz = chrono::FixedOffset::east_opt(off).unwrap();
    let dt = tz.from_local_datetime(&ndt).single().unwrap().with_timezone(&chrono::Local);
    LocalStamp {
        year: dt.year(),
        month: dt.month(),
        day: dt.day(),
        hour: dt.hour(),
        minute: dt.minute(),
        second: dt.second(),
        offset_secs: dt.offset().local_minus_utc(),
    }
}

/// Relies on chrono's strftime formatting (`DateTime::format` and the
/// `Display` of its delayed formatter): rendering a template over a fixed
/// local reading is a function of the template and fields alone; an
/// unrenderable template yields nothing rather than output.
#[verifier::external_body]
pub fn render_local(template: &str, y: i32, mo: u32, d: u32, h: u32, mi: u32, off: i32) -> (r:
    Option<String>)
    requires
        spec_valid_md(y as int, mo as int, d as int),
        0 <= y <= 9999,
        h < 24,
        mi < 60,
        -86400 < off < 86400,
    ensures
        r is Some <==> spec_rendered(
            template@,
            y as int,
            mo as int,
            d as int,
            h as int,
            mi as int,
            off as int,
        ) is Some,
        r matches Some(out) ==> Some(out@) == spec_rendered(
            template@,
            y as int,
            mo as int,
            d as int,
            h as int,
            mi as int,
            off as int,
        ),
{
    let date = chrono::NaiveDate::from_ymd_opt(y, mo, d)?;
    let ndt = date.and_hms_opt(h, mi, 0)?;
    let tz = chrono::FixedOffset::east_opt(off)?;
    let dt = tz.from_local_datetime(&ndt).single()?;
    let mut out = String::new();
    match write!(out, "{}", dt.format(template)) {
        Ok(()) => Some(out),
        Err(_) => None,
    }
}

} // verus!
