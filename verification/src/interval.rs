//! Intervals as people write them, read and written by the `humantime` crate.

use crate::error::{Fault, SyncError};
use crate::text::chars_of;
use vstd::prelude::*;

verus! {

/// A length of time: seconds, and nanoseconds on top.
#[derive(Clone, Copy, Debug, PartialEq, Eq, Structural)]
pub struct Interval {
    pub seconds: u64,
    pub nanos: u32,
}

impl Interval {
    /// The nanoseconds make less than a second.
    pub open spec fn well_formed(self) -> bool {
        self.nanos < 1_000_000_000
    }
}

/// What a text means as a length of time, in seconds and nanoseconds, or how the fault of a text
/// that means none is worded.
pub uninterp spec fn human_duration(text: Seq<char>) -> Result<(u64, u32), Seq<char>>;

/// Whether a unit can hold `c`.
pub open spec fn is_unit_letter(c: char) -> bool {
    'a' <= c <= 'z' || 'A' <= c <= 'Z' || c == 'µ'
}

/// A number of seconds that the unit whose first letter stands at `at` does not exceed.
pub open spec fn unit_seconds(text: Seq<char>, at: int) -> nat {
    let c = text[at];
    if c == 's' || c == 'n' || c == 'u' || c == 'µ' {
        1
    } else if c == 'm' && !(at + 1 < text.len() && text[at + 1] == 'o') {
        60
    } else if c == 'h' {
        3_600
    } else if c == 'd' {
        86_400
    } else {
        31_557_600
    }
}

/// What the first `count` characters of a text can come to: the seconds of the numbers that have
/// their unit, and the number that has none yet. Decimal points are passed over, which makes a
/// number larger.
pub open spec fn reach(text: Seq<char>, count: nat) -> (nat, nat)
    decreases count,
{
    if count == 0 {
        (0, 0)
    } else {
        let (seconds, number) = reach(text, (count - 1) as nat);
        let c = text[count - 1];
        if '0' <= c <= '9' {
            (seconds, (number * 10 + (c as nat - '0' as nat)) as nat)
        } else if is_unit_letter(c) {
            (seconds + number * unit_seconds(text, count - 1), 0)
        } else {
            (seconds, number)
        }
    }
}

/// Whether what stands at `at` can be the beginning of parts of a second: a decimal point, or the
/// first letter of a unit of nanoseconds, microseconds or milliseconds.
pub open spec fn fine_at(text: Seq<char>, at: int) -> bool {
    let c = text[at];
    ||| c == '.'
    ||| !(at > 0 && is_unit_letter(text[at - 1])) && (c == 'n' || c == 'u' || c == 'µ' || c == 'm'
        && at + 1 < text.len() && (text[at + 1] == 's' || text[at + 1] == 'i' && at + 2 < text.len()
        && text[at + 2] == 'l'))
}

/// Whether a text can be read as a length of time. The arithmetic of `humantime` can overflow where
/// parts of a second carry the last second that a 64-bit number holds; a text without such parts,
/// or with a length that stays below, cannot get there.
pub open spec fn readable(text: Seq<char>) -> bool {
    ||| forall|at: int| 0 <= at < text.len() ==> !#[trigger] fine_at(text, at)
    ||| reach(text, text.len()).0 + reach(text, text.len()).1 < u64::MAX
}

/// `humantime::parse_duration` reads a length of time, such as `1h 30m`. The result depends on the
/// text alone; the grammar is left to the crate. The nanoseconds of a `Duration` make less than a
/// second.
#[verifier::external_body]
fn parse_human(text: &str) -> (r: Result<Interval, String>)
    requires
        readable(text@),
    ensures
        match r {
            Ok(interval) => human_duration(text@) is Ok && human_duration(text@)->Ok_0 == (
                interval.seconds,
                interval.nanos,
            ) && interval.nanos < 1_000_000_000,
            Err(error) => human_duration(text@) is Err && human_duration(text@)->Err_0 == error@,
        },
{
    match humantime::parse_duration(text) {
        Ok(length) => Ok(Interval { seconds: length.as_secs(), nanos: length.subsec_nanos() }),
        Err(error) => Err(error.to_string()),
    }
}

/// A length of time, in seconds and nanoseconds, as `humantime::format_duration` writes it.
pub uninterp spec fn formatted_duration(seconds: u64, nanos: u32) -> Seq<char>;

/// `humantime::format_duration` writes a length of time, in a way that depends on it alone and that
/// `humantime::parse_duration` reads back as the same length.
#[verifier::external_body]
fn format_human(interval: Interval) -> (r: String)
    requires
        interval.nanos < 1_000_000_000,
    ensures
        r@ == formatted_duration(interval.seconds, interval.nanos),
        human_duration(r@) is Ok && human_duration(r@)->Ok_0 == (interval.seconds, interval.nanos),
{
    let length = std::time::Duration::new(interval.seconds, interval.nanos);
    humantime::format_duration(length).to_string()
}

fn unit_letter(c: char) -> (r: bool)
    ensures
        r == is_unit_letter(c),
{
    ('a' <= c && c <= 'z') || ('A' <= c && c <= 'Z') || c == 'µ'
}

fn seconds_of_unit(text: &Vec<char>, at: usize) -> (r: u128)
    requires
        at < text.len(),
    ensures
        r == unit_seconds(text@, at as int),
        1 <= r <= 31_557_600,
{
    let c = text[at];
    if c == 's' || c == 'n' || c == 'u' || c == 'µ' {
        1
    } else if c == 'm' && !(at + 1 < text.len() && text[at + 1] == 'o') {
        60
    } else if c == 'h' {
        3_600
    } else if c == 'd' {
        86_400
    } else {
        31_557_600
    }
}

fn fine(text: &Vec<char>, at: usize) -> (r: bool)
    requires
        at < text.len(),
    ensures
        r == fine_at(text@, at as int),
{
    let c = text[at];
    if c == '.' {
        true
    } else if at > 0 && unit_letter(text[at - 1]) {
        false
    } else if c == 'm' && at + 1 < text.len() {
        text[at + 1] == 's' || (text[at + 1] == 'i' && text.len() - at > 2 && text[at + 2] == 'l')
    } else {
        c == 'n' || c == 'u' || c == 'µ'
    }
}

/// Whether a text can be read as an interval.
pub fn in_range(text: &str) -> (r: bool)
    ensures
        r == readable(text@),
{
    let chars = chars_of(text);
    let mut seconds: u128 = 0;
    let mut number: u128 = 0;
    let mut low = true;
    let mut whole = true;
    let mut i: usize = 0;
    while i < chars.len()
        invariant
            i <= chars.len(),
            chars@ == text@,
            low ==> reach(text@, i as nat) == (seconds as nat, number as nat) && seconds + number
                < u64::MAX,
            !low ==> reach(text@, i as nat).0 + reach(text@, i as nat).1 >= u64::MAX,
            whole == (forall|at: int| 0 <= at < i ==> !#[trigger] fine_at(text@, at)),
        decreases chars.len() - i,
    {
        let c = chars[i];
        let unit = seconds_of_unit(&chars, i);
        let ghost (complete, last) = reach(text@, i as nat);
        assert(last * unit >= last) by (nonlinear_arith)
            requires
                unit >= 1,
        ;
        if fine(&chars, i) {
            whole = false;
        }
        if low {
            if '0' <= c && c <= '9' {
                number = number * 10 + (c as u128 - '0' as u128);
            } else if unit_letter(c) {
                assert(number * unit <= number * 31_557_600) by (nonlinear_arith)
                    requires
                        unit <= 31_557_600,
                ;
                seconds = seconds + number * unit;
                number = 0;
            }
            low = seconds + number < u64::MAX as u128;
        }
        i += 1;
    }
    whole || low
}

/// What a text means as an interval between runs, once it is known what it means as a length of
/// time: no length is too short.
pub open spec fn run_interval(length: Result<(u64, u32), Seq<char>>) -> Result<
    Interval,
    Fault<Seq<char>>,
> {
    match length {
        Ok((seconds, nanos)) => if seconds == 0 && nanos == 0 {
            Err(Fault::ZeroDuration)
        } else {
            Ok(Interval { seconds, nanos })
        },
        Err(error) => Err(Fault::BadDuration { error }),
    }
}

/// The view of an interval that was read.
pub open spec fn interval_view(r: Result<Interval, SyncError>) -> Result<
    Interval,
    Fault<Seq<char>>,
> {
    match r {
        Ok(interval) => Ok(interval),
        Err(error) => Err(error@),
    }
}

/// Takes a length of time, or the wording of a fault, as an interval between runs.
pub fn interval_of(length: Result<Interval, String>) -> (r: Result<Interval, SyncError>)
    ensures
        interval_view(r) == run_interval(
            match length {
                Ok(interval) => Ok((interval.seconds, interval.nanos)),
                Err(error) => Err(error@),
            },
        ),
{
    match length {
        Ok(interval) => {
            if interval.seconds == 0 && interval.nanos == 0 {
                Err(Fault::ZeroDuration)
            } else {
                Ok(interval)
            }
        },
        Err(error) => Err(Fault::BadDuration { error }),
    }
}

/// Reads an interval between runs.
pub fn parse_duration(value: &str) -> (r: Result<Interval, SyncError>)
    requires
        readable(value@),
    ensures
        interval_view(r) == run_interval(human_duration(value@)),
        r matches Ok(interval) ==> interval.well_formed(),
{
    let length = parse_human(value);
    interval_of(length)
}

/// Writes an interval.
pub fn format_duration(interval: Interval) -> (r: String)
    requires
        interval.well_formed(),
    ensures
        r@ == formatted_duration(interval.seconds, interval.nanos),
        interval != (Interval { seconds: 0, nanos: 0 }) ==> run_interval(human_duration(r@)) == Ok::<
            Interval,
            Fault<Seq<char>>,
        >(interval),
{
    format_human(interval)
}

} // verus!
