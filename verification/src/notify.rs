//! When the last sync succeeded, and when a failed one is worth a notification.

use crate::text::{option_view, trim_text, trimmed};
use vstd::prelude::*;

verus! {

/// A number of seconds since the Unix epoch as a date and time in UTC, such as
/// `2015-05-15T00:00:00Z`; none if it is out of the range of dates.
pub uninterp spec fn rfc3339(seconds: i64) -> Option<Seq<char>>;

/// The number of seconds since the Unix epoch that a date and time stands for; none for a text that
/// is no date and time.
pub uninterp spec fn rfc3339_seconds(text: Seq<char>) -> Option<i64>;

/// The first second of the year 10000. Up to it a year is written with four digits.
pub const YEAR_10000: i64 = 253_402_300_800;

/// `chrono::DateTime::from_timestamp` and `to_rfc3339_opts`, to whole seconds and with `Z` for UTC:
/// the date and time depend on the number of seconds alone. There is one for every time from the
/// epoch to the end of the year 9999: it begins with a digit and ends in `Z`, and
/// `chrono::DateTime::parse_from_rfc3339` reads it back as the same time. The calendar is left to
/// the crate.
#[verifier::external_body]
fn timestamp_text(seconds: i64) -> (r: Option<String>)
    ensures
        option_view(r) == rfc3339(seconds),
        0 <= seconds < YEAR_10000 ==> r is Some && rfc3339_seconds(r->Some_0@) == Some(seconds),
        0 <= seconds < YEAR_10000 ==> r->Some_0@.len() > 0 && '0' <= r->Some_0@[0] <= '9'
            && r->Some_0@.last() == 'Z',
{
    let time = chrono::DateTime::from_timestamp(seconds, 0)?;
    Some(time.to_rfc3339_opts(chrono::SecondsFormat::Secs, true))
}

/// `chrono::DateTime::parse_from_rfc3339` and `timestamp`: reads a date and time. The result
/// depends on the text alone; the grammar is left to the crate.
#[verifier::external_body]
fn timestamp_seconds(text: &str) -> (r: Option<i64>)
    ensures
        r == rfc3339_seconds(text@),
{
    match chrono::DateTime::parse_from_rfc3339(text) {
        Ok(time) => Some(time.timestamp()),
        Err(_) => None,
    }
}

/// What the success file holds for a sync that succeeded at a time. Up to the year 9999 the time
/// can be read back from it.
pub fn success_contents(now: i64) -> (r: Option<String>)
    ensures
        option_view(r) == rfc3339(now),
        0 <= now < YEAR_10000 ==> r is Some && time_in(option_view(r)) == Some(now),
{
    timestamp_text(now)
}

/// How the last success is shown: by what the success file holds, or as never.
pub open spec fn status_wording(contents: Option<Seq<char>>) -> Seq<char> {
    "Last successful run: "@ + match contents {
        Some(contents) => trimmed(contents),
        None => "never"@,
    }
}

/// How the last success is shown.
pub fn status_line(contents: Option<&str>) -> (r: String)
    ensures
        r@ == status_wording(option_view(contents)),
{
    let mut line = "Last successful run: ".to_owned();
    match contents {
        Some(contents) => {
            line.append(trim_text(contents).as_str());
        },
        None => {
            line.append("never");
        },
    }
    line
}

/// The seconds of a day.
pub const DAY: i64 = 86_400;

/// Whether something happened less than a day before.
pub open spec fn within_a_day(time: Option<i64>, now: i64) -> bool {
    time matches Some(time) && now - time < DAY
}

/// Whether a failed sync is worth a notification: if notifications are wanted, and neither a sync
/// succeeded nor a notification was sent within the last day.
pub open spec fn due(
    enabled: bool,
    last_success: Option<i64>,
    last_notification: Option<i64>,
    now: i64,
) -> bool {
    enabled && !within_a_day(last_success, now) && !within_a_day(last_notification, now)
}

fn happened_within_a_day(time: Option<i64>, now: i64) -> (r: bool)
    ensures
        r == within_a_day(time, now),
{
    match time {
        Some(time) => (now as i128) - (time as i128) < (DAY as i128),
        None => false,
    }
}

/// Whether a failed sync is worth a notification, by the times of the last success and of the last
/// notification.
pub fn due_at(
    enabled: bool,
    last_success: Option<i64>,
    last_notification: Option<i64>,
    now: i64,
) -> (r: bool)
    ensures
        r == due(enabled, last_success, last_notification, now),
{
    enabled && !happened_within_a_day(last_success, now) && !happened_within_a_day(
        last_notification,
        now,
    )
}

/// The time that a file with a date and time in it, and white space around it, stands for.
pub open spec fn time_in(contents: Option<Seq<char>>) -> Option<i64> {
    match contents {
        Some(contents) => rfc3339_seconds(trimmed(contents)),
        None => None,
    }
}

fn read_time(contents: Option<&str>) -> (r: Option<i64>)
    ensures
        r == time_in(option_view(contents)),
{
    match contents {
        Some(contents) => timestamp_seconds(trim_text(contents).as_str()),
        None => None,
    }
}

/// Whether a failed sync is worth a notification, by what the files of the last success and of the
/// last notification hold.
pub fn notification_due(
    enabled: bool,
    last_success: Option<&str>,
    last_notification: Option<&str>,
    now: i64,
) -> (r: bool)
    ensures
        r == due(
            enabled,
            time_in(option_view(last_success)),
            time_in(option_view(last_notification)),
            now,
        ),
{
    due_at(enabled, read_time(last_success), read_time(last_notification), now)
}

/// Notifications are a day apart: after one, the next is due a day later at the earliest.
pub proof fn notifications_are_a_day_apart(
    enabled: bool,
    last_success: Option<i64>,
    notified: i64,
    now: i64,
)
    requires
        due(enabled, last_success, Some(notified), now),
    ensures
        now - notified >= DAY,
{
}

/// A sync that succeeded within the last day keeps notifications away.
pub proof fn success_keeps_notifications_away(
    enabled: bool,
    succeeded: i64,
    last_notification: Option<i64>,
    now: i64,
)
    requires
        now - succeeded < DAY,
    ensures
        !due(enabled, Some(succeeded), last_notification, now),
{
}

/// A failed sync is worth a notification exactly if notifications are wanted, the last success, if
/// there was one, is a day ago or more, and so is the last notification.
pub proof fn when_a_notification_is_due(
    enabled: bool,
    last_success: Option<i64>,
    last_notification: Option<i64>,
    now: i64,
)
    ensures
        due(enabled, last_success, last_notification, now) <==> {
            &&& enabled
            &&& last_success is None || now - last_success->Some_0 >= 24 * 60 * 60
            &&& last_notification is None || now - last_notification->Some_0 >= 24 * 60 * 60
        },
{
}

} // verus!
