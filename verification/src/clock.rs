//! The clock and the calendar.

use crate::dates::iso_date;
use vstd::prelude::*;

verus! {

/// The day that a date text names, counted from the first day of the common era: what
/// `chrono::NaiveDate::parse_from_str` reads under the format `%Y-%m-%d`, if it reads anything.
pub uninterp spec fn day_named(date: Seq<char>) -> Option<int>;

/// The microseconds since the Unix epoch, from `chrono::Utc::now`. Claimed of the clock only that it
/// does not show a moment before the epoch: there the call panics.
#[verifier::external_body]
pub(crate) fn now_micros() -> (r: i64)
    ensures
        r >= 0,
{
    chrono::Utc::now().timestamp_micros()
}

/// The second that a count of microseconds falls into.
pub open spec fn second_of(micros: int) -> int {
    micros / 1000000
}

/// The second that a count of microseconds falls into: what a write of that moment is stamped with.
///
/// A read of the present is made at the count of microseconds itself. It lies past every stamp, so
/// what was written by a clock that has been set back since reads too.
pub(crate) fn stamp_of(micros: i64) -> (r: i64)
    requires
        micros >= 0,
    ensures
        r == second_of(micros as int),
        0 <= r <= micros,
{
    micros / 1000000
}

/// Whether a count of microseconds is one that the clock showed: what [`now_micros`] came back with.
pub closed spec fn clock_showed(now: int) -> bool {
    exists|m: i64| m == now && #[trigger] call_ensures(now_micros, (), m)
}

/// Whether a second is one that the clock showed: the clock was past its start and not yet at that of
/// the next.
pub open spec fn second_showed(at: int) -> bool {
    exists|now: int| #[trigger] clock_showed(now) && at * 1000000 <= now < at * 1000000 + 1000000
}

/// The present moment, in microseconds since the Unix epoch.
pub(crate) fn present() -> (r: i64)
    ensures
        r >= 0,
        clock_showed(r as int),
{
    let clock = now_micros;
    let now: i64 = clock();
    assert(call_ensures(now_micros, (), now));
    now
}

/// The seconds since the Unix epoch: what a write of the present is stamped with.
pub(crate) fn now_seconds() -> (r: i64)
    ensures
        r >= 0,
        second_showed(r as int),
{
    let now = present();
    assert(clock_showed(now as int));
    stamp_of(now)
}

/// Whether a text is a day as the calendar writes it: `YYYY-MM-DD`, or with a sign in front where
/// the year takes more than four digits.
pub open spec fn is_day(s: Seq<char>) -> bool {
    ||| exists|y: nat, m: nat, d: nat|
        y < 10000 && 1 <= m <= 12 && 1 <= d <= 31 && s == #[trigger] iso_date(y, m, d)
    ||| s.len() > 0 && s[0] == '+'
}

/// Today in UTC as `YYYY-MM-DD`, from `chrono::Utc::now` and the format `%Y-%m-%d`. Claimed: the
/// text has this shape, except that a year past 9999 comes with a plus sign. Nothing is claimed of
/// which day the clock shows.
#[verifier::external_body]
pub(crate) fn today_iso() -> (r: String)
    ensures
        is_day(r@),
{
    chrono::Utc::now().format("%Y-%m-%d").to_string()
}

/// Whether a text is one that the calendar showed for today: what [`today_iso`] came back with.
pub closed spec fn day_showed(today: Seq<char>) -> bool {
    exists|s: String| s@ == today && #[trigger] call_ensures(today_iso, (), s)
}

/// This day, as the calendar writes it.
pub(crate) fn this_day() -> (r: String)
    ensures
        is_day(r@),
        day_showed(r@),
{
    let calendar = today_iso;
    let today = calendar();
    assert(call_ensures(today_iso, (), today));
    today
}

/// Reads a date with `chrono::NaiveDate::parse_from_str` and numbers its day with
/// `chrono::Datelike::num_days_from_ce`. Claimed: the result depends on the text alone, and is
/// what [`day_named`] names.
#[verifier::external_body]
pub(crate) fn day_number(date: &str) -> (r: Option<i32>)
    ensures
        r is Some <==> day_named(date@) is Some,
        r matches Some(n) ==> day_named(date@) == Some(n as int),
{
    let day = chrono::NaiveDate::parse_from_str(date, "%Y-%m-%d").ok()?;
    Some(chrono::Datelike::num_days_from_ce(&day))
}

} // verus!
