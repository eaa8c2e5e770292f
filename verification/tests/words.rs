//! Texts, digests, lengths of time and dates.

use pdrive_sync::config::SyncMode;
use pdrive_sync::digest::{hex_text, one_off_name, FileDigest, SHA1_INPUT_LIMIT};
use pdrive_sync::error::{Fault, SyncError};
use pdrive_sync::interval::{format_duration, in_range, interval_of, parse_duration, Interval};
use pdrive_sync::notify::{due_at, notification_due, status_line, success_contents, DAY};
use pdrive_sync::text::{
    blank, chars_of, clone_text, clone_texts, concat2, concat3, contains_char, contains_text,
    decimal_text, eq_ignore_ascii_case, holds, join_texts, starts_with_char, starts_with_text,
    text_eq, text_less, text_of, trim_end_char, trim_text, white_space,
};

#[test]
fn digests_are_written_in_hexadecimal() {
    assert_eq!(
        FileDigest::new().finish(),
        "da39a3ee5e6b4b0d3255bfef95601890afd80709"
    );
    let digest = FileDigest::new().update(b"hello ").update(b"world");
    assert_eq!(digest.room(), SHA1_INPUT_LIMIT - 1 - 11);
    assert_eq!(digest.finish(), "2aae6c35c94fcfb415dbe95f408b9ce91ee846ed");
    assert_eq!(hex_text(&vec![0, 9, 10, 255]), "00090aff");
}

#[test]
fn one_off_names_tell_their_parts_apart() {
    let name = one_off_name("/a", "/b", SyncMode::Push);
    assert_eq!(name, one_off_name("/a", "/b", SyncMode::Push));
    assert_eq!(name.len(), "one-off-".len() + 40);
    for other in [
        one_off_name("/a/", "/b", SyncMode::Push),
        one_off_name("/a", "/c", SyncMode::Push),
        one_off_name("/a", "/b", SyncMode::Pull),
    ] {
        assert_ne!(name, other);
    }
}

#[test]
fn intervals_are_read_as_people_write_them() {
    let seconds = |seconds| Interval { seconds, nanos: 0 };
    assert!(in_range("1h 30m"));
    assert_eq!(parse_duration("1h 30m").unwrap(), seconds(5400));
    assert_eq!(parse_duration("30m").unwrap(), seconds(1800));
    assert_eq!(
        parse_duration("1500ms").unwrap(),
        Interval {
            seconds: 1,
            nanos: 500_000_000
        }
    );
    assert_eq!(
        parse_duration("0s").unwrap_err().message(),
        "duration must be greater than zero"
    );
    assert_eq!(
        parse_duration("soon").unwrap_err().message(),
        "expected number at 0"
    );
    assert_eq!(parse_duration("").unwrap_err().message(), "value was empty");
    assert_eq!(format_duration(seconds(5400)), "1h 30m");
    let odd = Interval {
        seconds: 90_061,
        nanos: 7,
    };
    assert_eq!(parse_duration(&format_duration(odd)).unwrap(), odd);
    assert_eq!(interval_of(Ok(seconds(1))).unwrap(), seconds(1));
    assert!(matches!(
        interval_of(Ok(seconds(0))),
        Err(Fault::ZeroDuration)
    ));
    assert_eq!(
        interval_of(Err("no".to_owned())).unwrap_err().message(),
        "no"
    );
}

#[test]
fn parts_of_a_second_near_the_end_of_time_are_out_of_range() {
    for text in [
        "no numbers",
        "600000000000ms",
        "18446744073709ms",
        "307445734561825860m",
        "584542046090years 1ns",
        "18446744073709551613s 1ns",
        "18446744073709551615s",
        "99999999999999999999999999999999",
        "99999999999999999999 seconds 1 minute 1 month 1 hour",
    ] {
        assert!(in_range(text), "{text}");
    }
    for text in [
        "18446744073709551615s 1ns",
        "18446744073709551614s 500ms 500ms",
        "18446744073709551614s1us",
        "18446744073709551614 s 1 µs",
        "18446744073709551614s 1millis",
        "18446744073709551614.5s",
        "1 8 4 4 6 7 4 4 0 7 3 7 0 9 5 5 1 6 1 5 s 1nanos",
    ] {
        assert!(!in_range(text), "{text}");
    }
    assert_eq!(
        parse_duration("600000000000ms").unwrap(),
        Interval {
            seconds: 600_000_000,
            nanos: 0
        }
    );
    assert_eq!(
        parse_duration("18446744073709551615s").unwrap(),
        Interval {
            seconds: u64::MAX,
            nanos: 0
        }
    );
    assert!(parse_duration("99999999999999999999s")
        .unwrap_err()
        .message()
        .starts_with("number is too large"));
}

#[test]
fn successes_are_dated() {
    assert_eq!(success_contents(0).unwrap(), "1970-01-01T00:00:00Z");
    assert_eq!(
        success_contents(1_431_648_000).unwrap(),
        "2015-05-15T00:00:00Z"
    );
    assert_eq!(
        success_contents(253_402_300_799).unwrap(),
        "9999-12-31T23:59:59Z"
    );
    assert!(success_contents(i64::MAX).is_none());
    assert_eq!(
        status_line(Some(" 2015-05-15T00:00:00Z\n")),
        "Last successful run: 2015-05-15T00:00:00Z"
    );
    assert_eq!(status_line(None), "Last successful run: never");
}

#[test]
fn failures_are_notified_once_a_day() {
    let now = 1_431_648_000;
    let at = |seconds: i64| success_contents(seconds).unwrap();
    let (recent, old) = (at(now - DAY + 1), at(now - DAY));
    assert!(notification_due(true, None, None, now));
    assert!(notification_due(true, Some(&old), None, now));
    assert!(!notification_due(true, Some(&recent), None, now));
    assert!(!notification_due(true, None, Some(&recent), now));
    assert!(!notification_due(
        true,
        Some(&format!(" {recent}\n")),
        None,
        now
    ));
    assert!(notification_due(true, Some(&old), Some(&old), now));
    assert!(notification_due(true, Some("never"), None, now));
    assert!(!notification_due(false, None, None, now));
    assert!(!due_at(true, Some(now), None, now));
    assert!(due_at(true, Some(now - DAY), None, now));
    assert!(due_at(true, Some(i64::MIN), None, i64::MAX));
}

#[test]
fn texts_compare_as_strings_do() {
    let samples = ["", "a", "A", "ab", "b", "\u{e9}", "\u{10000}", "\u{ffff}"];
    for a in samples {
        for b in samples {
            assert_eq!(text_less(a, b), a < b, "{a:?} {b:?}");
            assert_eq!(text_eq(a, b), a == b);
            assert_eq!(eq_ignore_ascii_case(a, b), a.eq_ignore_ascii_case(b));
            assert_eq!(contains_text(a, b), a.contains(b));
            assert_eq!(starts_with_text(a, b), a.starts_with(b));
            assert_eq!(concat2(a, b), format!("{a}{b}"));
            assert_eq!(concat3(a, b, a), format!("{a}{b}{a}"));
        }
        assert_eq!(text_of(&chars_of(a), 0, a.chars().count()), a);
        assert_eq!(contains_char(a, 'b'), a.contains('b'));
        assert_eq!(starts_with_char(a, 'a'), a.starts_with('a'));
    }
    assert_eq!(trim_end_char("a//", '/'), "a");
    assert_eq!(trim_end_char("//", '/'), "");
    assert_eq!(trim_text("\u{2003} a b\t\n"), "a b");
    assert_eq!(trim_text(" \n"), "");
}

#[test]
fn white_space_is_that_of_unicode() {
    for c in '\0'..=char::MAX {
        assert_eq!(white_space(c), c.is_whitespace(), "{c:?}");
    }
    assert!(blank(" \u{a0}\u{2028}"));
    assert!(blank(""));
    assert!(!blank(" a"));
}

#[test]
fn numbers_and_lists_are_written_out() {
    for n in [0, 7, 10, 1_234_567_890, u64::MAX] {
        assert_eq!(decimal_text(n), n.to_string());
    }
    let list = vec!["a".to_owned(), "b".to_owned()];
    assert_eq!(join_texts(&list, ", "), "a, b");
    assert_eq!(join_texts(&Vec::new(), ", "), "");
    assert_eq!(clone_texts(&list), list);
    assert_eq!(clone_text(&Some("a".to_owned())).as_deref(), Some("a"));
    assert!(holds(&list, "b") && !holds(&list, "c"));
}

#[test]
fn faults_are_worded_for_people() {
    let a = || "a".to_owned();
    let cases: Vec<(SyncError, &str)> = vec![
        (
            Fault::BadPattern {
                name: a(),
                pattern: "\u{e9}\"\n".to_owned(),
                error: "no".to_owned(),
            },
            "sync a has invalid exclude pattern \"\u{e9}\\\"\\n\": no",
        ),
        (
            Fault::BadExcludes {
                name: a(),
                error: "no".to_owned(),
            },
            "failed to build excludes for sync a: no",
        ),
        (
            Fault::SyncFailed {
                name: a(),
                fault: Box::new(Fault::NoSide),
            },
            "sync a failed: two-way conflict has neither side",
        ),
        (
            Fault::BeforeEpoch,
            "file modification time is before the Unix epoch: second time provided was later than self",
        ),
        (
            Fault::MtimeRange,
            "file modification time does not fit in SQLite: out of range integral type conversion attempted",
        ),
        (Fault::NoSide, "two-way conflict has neither side"),
        (Fault::DownloadNoName, "local download target has no name"),
        (Fault::Drive { error: a() }, "a"),
    ];
    for (fault, wording) in cases {
        assert_eq!(fault.message(), wording);
    }
}
