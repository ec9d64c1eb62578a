//! Time-window evaluation: a guild-local wall-clock instant, and the two
//! fixed one-minute windows the bot cares about — the achievement window
//! (13:37) in which a trigger message can earn a daily record, and the
//! publish moment (13:38), one minute later, at which the monthly
//! leaderboard is sent.

use chrono::Datelike;
use chrono::Timelike;
use core::str::FromStr;
use vstd::prelude::*;

verus! {

/// An instant expressed in a guild's local calendar: wall-clock hour and
/// minute plus the local calendar day, month and year. The day/month/year
/// triple — not the UTC date — identifies the calendar day an achievement
/// is recorded under.
#[derive(Clone, Copy, Debug)]
pub struct LocalTime {
    pub hour: u32,
    pub minute: u32,
    pub day: u32,
    pub month: u32,
    pub year: i32,
}

impl LocalTime {
    /// Field ranges of a real wall-clock instant in a real calendar.
    pub open spec fn wf(self) -> bool {
        &&& self.hour < 24
        &&& self.minute < 60
        &&& 1 <= self.day <= 31
        &&& 1 <= self.month <= 12
    }
}

/// The achievement window: exactly the local minute 13:37.
pub open spec fn spec_is_achievement_window(hour: u32, minute: u32) -> bool {
    hour == 13 && minute == 37
}

/// The publish moment: exactly the local minute 13:38, one minute after
/// the achievement window so that the window's records land before the
/// leaderboard is aggregated.
pub open spec fn spec_is_publish_moment(hour: u32, minute: u32) -> bool {
    hour == 13 && minute == 38
}

/// True iff the given local minute is the achievement window.
pub fn is_achievement_window(hour: u32, minute: u32) -> (r: bool)
    ensures
        r == spec_is_achievement_window(hour, minute),
{
    hour == 13 && minute == 37
}

/// True iff the given local minute is the publish moment.
pub fn is_publish_moment(hour: u32, minute: u32) -> (r: bool)
    ensures
        r == spec_is_publish_moment(hour, minute),
{
    hour == 13 && minute == 38
}

/// The canonical IANA name a time-zone string resolves to under
/// ASCII-case-insensitive lookup, or nothing when the database does not
/// know it. The outcome depends on the string alone.
pub uninterp spec fn tz_canonical(s: Seq<char>) -> Option<Seq<char>>;

/// Relies on chrono_tz::Tz::from_str_insensitive — a case-insensitive
/// lookup of the name in the compiled-in IANA database — and on Tz::name,
/// which returns the zone's canonical name. Both depend on the string
/// alone.
#[verifier::external_body]
pub(crate) fn parse_timezone(tz: &str) -> (r: Option<String>)
    ensures
        r is Some <==> tz_canonical(tz@) is Some,
        r matches Some(c) ==> Some(c@) == tz_canonical(tz@),
{
    match chrono_tz::Tz::from_str_insensitive(tz) {
        Ok(zone) => Some(zone.name().to_owned()),
        Err(_) => None,
    }
}

/// What an instant (non-leap seconds since the Unix epoch) reads as on
/// the wall clock and calendar of a named time zone:
/// (hour, minute, day, month, year), or nothing when the zone name has no
/// exact entry in the IANA database or the instant is out of range. The
/// outcome depends on the two arguments alone.
pub uninterp spec fn local_parts(secs: int, tz: Seq<char>) -> Option<(u32, u32, u32, u32, i32)>;

/// Relies on chrono_tz::Tz::from_str (exact lookup of the canonical
/// name), chrono::DateTime::from_timestamp (None exactly on an
/// out-of-range instant), DateTime::with_timezone, and the Datelike and
/// Timelike accessors with their documented ranges (hour 0–23, minute
/// 0–59, day 1–31, month 1–12). All are functions of the two arguments
/// alone.
#[verifier::external_body]
pub(crate) fn localize(secs: i64, tz: &str) -> (r: Option<LocalTime>)
    ensures
        r is Some <==> local_parts(secs as int, tz@) is Some,
        r matches Some(lt) ==> Some((lt.hour, lt.minute, lt.day, lt.month, lt.year)) == local_parts(
            secs as int,
            tz@,
        ) && lt.wf(),
{
    let zone = chrono_tz::Tz::from_str(tz).ok()?;
    let local = chrono::DateTime::from_timestamp(secs, 0)?.with_timezone(&zone);
    Some(
        LocalTime {
            hour: local.hour(),
            minute: local.minute(),
            day: local.day(),
            month: local.month(),
            year: local.year(),
        },
    )
}

} // verus!
