use moreutils::ts::{effective_format, parse_args, usage_text, Options};
use moreutils::ts_format::{concise_ago, expand_subseconds, sanitize_relative_format};
use moreutils::ts_parse::{parse_timestamp, Stamp};
use moreutils::ts_relative::{
    absolute_stamp, convert_relative, format_elapsed, relative_replacement, replace_timestamps,
    stamp_line, Now, TimestampPattern,
};
use moreutils::ts_time::{Civil, Zone};

fn strings(v: &[&str]) -> Vec<String> {
    v.iter().map(|s| s.to_string()).collect()
}

fn parse(v: &[&str]) -> Result<Options, String> {
    parse_args(&strings(v))
}

fn err(v: &[&str]) -> String {
    match parse(v) {
        Err(e) => e,
        Ok(_) => panic!("{v:?} accepted"),
    }
}

/// Mid-June 2024 at noon, in UTC.
fn now_utc() -> Now {
    Now {
        epoch: 1718452800,
        local: Civil { year: 2024, month: 6, day: 15, hour: 12, minute: 0, second: 0 },
    }
}

fn rel(input: &[u8], fmt: &str, use_format: bool, zone: Zone) -> Vec<u8> {
    let pattern = TimestampPattern::new();
    let mut out = Vec::new();
    for line in input.split_inclusive(|&b| b == b'\n') {
        out.extend(convert_relative(line, fmt, use_format, &pattern, now_utc(), zone).expect("no abort"));
    }
    out
}

fn rel_utc(input: &[u8], fmt: &str) -> Vec<u8> {
    rel(input, fmt, true, Zone::Fixed(0))
}

fn absolute(input: &[u8], fmt: &str) -> Vec<u8> {
    let stamp = absolute_stamp(1718452800, 0, Zone::Fixed(0), fmt).expect("format");
    let mut out = Vec::new();
    for line in input.split_inclusive(|&b| b == b'\n') {
        out.extend(stamp_line(&stamp, line));
    }
    out
}

#[test]
fn cli_parsing_matches_getopt_long() {
    assert_eq!(err(&["-x"]), "Unknown option: x");
    assert_eq!(err(&["--bad"]), "Unknown option: bad");
    assert_eq!(err(&["-is"]), "Unknown option: is");
    assert_eq!(err(&["-ri"]), "Unknown option: ri");
    assert_eq!(err(&["-r=1"]), "Option r does not take an argument");
    assert_eq!(err(&["--i=1"]), "Option i does not take an argument");
    assert_eq!(err(&["-%Y"]), "Unknown option: %y");
    assert_eq!(err(&["literal", "-x"]), "Unknown option: x");
    assert_eq!(err(&["--relative"]), "Unknown option: relative");
    assert_eq!(err(&["-X"]), "Unknown option: x");
    assert_eq!(usage_text(), "usage: ts [-r] [-i | -s] [-m] [format]");

    let empty = parse(&[]).unwrap();
    assert!(empty.format.is_none() && empty.files.is_empty());
    assert_eq!(effective_format(&empty), "%b %d %H:%M:%S");
    assert_eq!(absolute(b"", "%b %d %H:%M:%S"), b"".to_vec());

    let dash = parse(&["-"]).unwrap();
    assert_eq!(dash.format.as_deref(), Some("-"));
    assert_eq!(absolute(b"input\n", "-"), b"- input\n".to_vec());

    let dashdash = parse(&["--", "-foo"]).unwrap();
    assert_eq!(dashdash.format.as_deref(), Some("-foo"));
    assert_eq!(absolute(b"input\n", "-foo"), b"-foo input\n".to_vec());

    let upper = parse(&["-R", "literal"]).unwrap();
    assert!(upper.rel && !upper.inc);
    assert_eq!(upper.format.as_deref(), Some("literal"));
    assert_eq!(rel_utc(b"not a timestamp\n", "literal"), b"not a timestamp\n".to_vec());

    let long_i = parse(&["--i"]).unwrap();
    assert!(long_i.inc && !long_i.rel);
    assert_eq!(effective_format(&long_i), "%H:%M:%S");
}

#[test]
fn stdin_bytes_and_line_endings_match() {
    assert_eq!(parse(&["prefix"]).unwrap().format.as_deref(), Some("prefix"));
    let cases: &[(&[u8], &[u8])] = &[
        (b"", b""),
        (b"one\n", b"prefix one\n"),
        (b"one", b"prefix one"),
        (b"one\ntwo\nthree", b"prefix one\nprefix two\nprefix three"),
        (b"\xff\x80ok\n", b"prefix \xff\x80ok\n"),
        (b"a\0b\n", b"prefix a\0b\n"),
        (b"a\r\nb\r", b"prefix a\r\nprefix b\r"),
        (b"\n\n", b"prefix \nprefix \n"),
    ];
    for (input, expected) in cases {
        assert_eq!(absolute(input, "prefix"), expected.to_vec());
    }
    let mut long = vec![b'a'; 150_000];
    long.push(b'\n');
    let mut expected = b"prefix ".to_vec();
    expected.extend(&long);
    assert_eq!(absolute(&long, "prefix"), expected);
}

#[test]
fn timezone_environment_matches() {
    assert_eq!(absolute_stamp(1718452800, 0, Zone::Fixed(0), "%z").as_deref(), Some("+0000"));
    assert_eq!(absolute_stamp(1718452800, 0, Zone::Fixed(-5 * 3600), "%z").as_deref(), Some("-0500"));
}

#[test]
fn incremental_since_start_and_monotonic_ranges() {
    assert_eq!(format_elapsed("%.s", 0, 90_123).as_deref(), Some("0.090123"));
    assert_eq!(format_elapsed("%.s", 0, 0).as_deref(), Some("0.000000"));
    assert_eq!(format_elapsed("%.s", 1, 250_000).as_deref(), Some("1.250000"));
    for args in [&["-i", "%.s"][..], &["-s", "%.s"], &["-m", "-i", "%.s"], &["-m", "-s", "%.s"]] {
        let o = parse(args).unwrap();
        assert_eq!(o.format.as_deref(), Some("%.s"));
    }
    let both = parse(&["-i", "-s", "%.s"]).unwrap();
    assert!(both.inc && both.since_start);
    let reverse = parse(&["-s", "-i", "%.s"]).unwrap();
    assert!(reverse.inc && reverse.since_start);
    let inc = parse(&["-i"]).unwrap();
    assert_eq!(effective_format(&inc), "%H:%M:%S");
    assert_eq!(format_elapsed(&effective_format(&inc), 0, 1234).as_deref(), Some("00:00:00"));
    let since = parse(&["-s"]).unwrap();
    assert_eq!(effective_format(&since), "%H:%M:%S");
    assert_eq!(format_elapsed("%H:%M:%S", 3725, 0).as_deref(), Some("01:02:05"));
}

const RELATIVE_INPUT: &[u8] = b"Jan  2 03:04:05 syslog\n\
2020-01-02T03:04:05.123Z iso\n\
2020:01:02T03:04:05.123Z iso-colon\n\
Thu, 16 Jun 1994 07:29:35 GMT rfc\n\
Thu 16 Jun 1994 07:29:35 GMT rfc-no-comma\n\
16 Jun 94 07:29:35 +0200 offset\n\
21 Dec 17:05 daymonth\n\
21 Dec 17:05 +0200 daymonth-tz\n\
Mon Jan 02 03:04 lastlog\n\
no timestamp here\n\
2020-01-02T03:04:05.123Z first and 2021-02-03T04:05:06.789Z second\n";

#[test]
fn relative_conversion_with_format_matches() {
    assert_eq!(
        rel_utc(RELATIVE_INPUT, "%Y-%m-%dT%H:%M:%S%z"),
        b"2024-01-02T03:04:05+0000 syslog\n\
2020-01-02T03:04:05+0000 iso\n\
2020-01-02T03:04:05+0000 iso-colon\n\
1994-06-16T07:29:35+0000 rfc\n\
1994-06-16T07:29:35+0000 rfc-no-comma\n\
1994-06-16T05:29:35+0000 offset\n\
2023-12-21T17:05:00+0000 daymonth\n\
2023-12-21T15:05:00+0000 daymonth-tz\n\
2024-01-02T03:04:00+0000 lastlog\n\
no timestamp here\n\
2020-01-02T03:04:05+0000 first and 2021-02-03T04:05:06+0000 second\n"
            .to_vec()
    );
    assert_eq!(
        rel_utc(RELATIVE_INPUT, "%s"),
        b"1704164645 syslog\n\
1577934245 iso\n\
1577934245 iso-colon\n\
771751775 rfc\n\
771751775 rfc-no-comma\n\
771744575 offset\n\
1703178300 daymonth\n\
1703171100 daymonth-tz\n\
1704164640 lastlog\n\
no timestamp here\n\
1577934245 first and 1612325106 second\n"
            .to_vec()
    );
    assert_eq!(
        rel_utc(b"2020-01-02T03:04:05.123Z x\n", "%.S %.s %.T"),
        b"%.S %.s %.T x\n".to_vec()
    );
    assert_eq!(
        rel(
            b"2020-01-02T03:04:05.123Z zulu\n21 Dec 17:05 local\n",
            "%Y-%m-%dT%H:%M:%S%z",
            true,
            Zone::Fixed(-5 * 3600)
        ),
        b"2020-01-01T22:04:05-0500 zulu\n2023-12-21T17:05:00-0500 local\n".to_vec()
    );
}

#[test]
fn relative_conversion_without_format() {
    assert_eq!(
        rel(b"1970-01-01T00:00:00.000Z old\nno timestamp\n", "%b %d %H:%M:%S", false, Zone::Fixed(0)),
        b"54y180d ago old\nno timestamp\n".to_vec()
    );
    assert_eq!(concise_ago(0), "right now");
    assert_eq!(concise_ago(-90), "1m30s from now");
    assert_eq!(concise_ago(90), "1m30s ago");
    assert_eq!(concise_ago(3 * 86400 + 5 * 3600 + 31 * 60), "3d6h ago");
}

#[test]
fn relative_invalid_and_no_match_inputs() {
    assert_eq!(
        rel(b"plain\n\xff\x80\nplain2", "%b %d %H:%M:%S", false, Zone::Fixed(0)),
        b"plain\n\xff\x80\nplain2".to_vec()
    );
    let bad = b"not a timestamp\n2020-99-99 99:99:99 bad\n99 Jax nope bad\n";
    assert_eq!(rel_utc(bad, "%Y"), bad.to_vec());
    let pattern = TimestampPattern::new();
    assert!(pattern.spans(b"2020-01-02T03:04:05.123z x\n").is_empty());
    assert_eq!(rel_utc(b"2020-01-02T03:04:05.123z x\n", "%Y"), b"2020-01-02T03:04:05.123z x\n".to_vec());
}

#[test]
fn option_after_dashdash_becomes_operand() {
    let o = parse(&["--", "-x"]).unwrap();
    assert_eq!(o.format.as_deref(), Some("-x"));
    assert_eq!(absolute(b"in\n", "-x"), b"-x in\n".to_vec());
    let p = parse(&["prefix", "--", "-x"]).unwrap();
    assert_eq!(p.format.as_deref(), Some("prefix"));
    assert_eq!(p.files, strings(&["-x"]));
}

#[test]
fn relative_options_do_not_override_relative_mode() {
    for args in [&["-r", "-i", "%Y"][..], &["-r", "-s", "%Y"], &["-r", "-m", "%Y"]] {
        let o = parse(args).unwrap();
        assert!(o.rel);
        assert_eq!(rel_utc(b"2020-01-02T03:04:05.123Z x\n", o.format.as_deref().unwrap()), b"2020 x\n".to_vec());
    }
    let all = parse(&["-r", "-i", "-s", "-m", "prefix"]).unwrap();
    assert!(all.rel && all.inc && all.since_start && all.mono);
    assert_eq!(rel_utc(b"plain\n", "prefix"), b"plain\n".to_vec());
}

#[test]
fn literal_and_empty_formats_match() {
    assert_eq!(absolute(b"x\n\n", ""), b" x\n \n".to_vec());
    assert_eq!(rel_utc(b"2020-01-02T03:04:05.123Z x\nplain\n", ""), b" x\nplain\n".to_vec());
    assert_eq!(absolute(b"x\n", "A\tB"), b"A\tB x\n".to_vec());
    assert_eq!(absolute(b"x\n", "A\nB"), b"A\nB x\n".to_vec());
    assert_eq!(absolute(b"x\n", " "), b"  x\n".to_vec());
    assert_eq!(absolute(b"x\n", "%% %%"), b"% % x\n".to_vec());
    assert_eq!(sanitize_relative_format("%% %%.S"), "%% %%.S");
    assert_eq!(rel_utc(b"2020-01-02T03:04:05.123Z x\n", "%% %%.S"), b"% %.S x\n".to_vec());
}

#[test]
fn relative_word_boundaries_and_replacement_scope() {
    assert_eq!(
        rel_utc(b"x2020-01-02T03:04:05.123Z not-boundary\n[2020-01-02T03:04:05.123Z] boundary\n", "%Y"),
        b"x2020-01-02T03:04:05.123Z not-boundary\n[2020] boundary\n".to_vec()
    );
    assert_eq!(
        rel_utc(b"before 2020-01-02T03:04:05.123Z after\n", "%Y"),
        b"before 2020 after\n".to_vec()
    );
}

#[test]
fn relative_two_digit_years_and_timezones() {
    assert_eq!(
        rel_utc(b"16 Jun 69 07:29:35 x\n16 Jun 70 07:29:35 y\n", "%Y"),
        b"2069 x\n2070 y\n".to_vec()
    );
    assert_eq!(rel_utc(b"16 Jun 1994 07:29:35 GMT x\n", "%z %H"), b"+0000 07 x\n".to_vec());
    assert_eq!(rel_utc(b"16 Jun 1994 07:29:35 +0200 x\n", "%H:%M"), b"05:29 x\n".to_vec());
    assert_eq!(rel_utc(b"16 Jun 1994 07:29:35 local\n", "%s"), b"771751775 local\n".to_vec());
}

#[test]
fn future_yearless_relative_dates_roll_to_previous_year() {
    assert_eq!(rel_utc(b"Dec 31 23:59:59 future-ish\n", "%Y"), b"2023 future-ish\n".to_vec());
    assert_eq!(rel_utc(b"Sun Dec 31 23:59 lastlog\n", "%Y"), b"2023 lastlog\n".to_vec());
}

#[test]
fn status_and_stderr_success_cases() {
    for args in [&["prefix"][..], &["-r", "%Y"], &["-m"], &["-s"], &["-i"]] {
        assert!(parse(args).is_ok(), "{args:?}");
    }
    assert!(parse(&["-x"]).is_err());
}

#[test]
fn timestamps_read_in_each_format() {
    let c = |s: &str| s.chars().collect::<Vec<char>>();
    let now = now_utc().local;
    assert_eq!(parse_timestamp(&c("2020-01-02T03:04:05.123Z"), now, Zone::Fixed(3600)), Stamp::Time(1577934245));
    assert_eq!(parse_timestamp(&c("2020-01-02T03:04:05.5"), now, Zone::Fixed(3600)), Stamp::Time(1577934245 - 3600));
    assert_eq!(parse_timestamp(&c("2020-02-30T03:04:05.5"), now, Zone::Fixed(0)), Stamp::NotTime);
    assert_eq!(parse_timestamp(&c("Jun 15 12:00:01"), now, Zone::Fixed(0)), Stamp::Time(1718452801 - 366 * 86400));
    assert_eq!(parse_timestamp(&c("16 Jun 1994 07:29:35 +2400"), now, Zone::Fixed(0)), Stamp::NotTime);
    assert_eq!(parse_timestamp(&c("16 Jun 1994 07:29:35 \u{e9}\u{e9}a"), now, Zone::Fixed(0)), Stamp::Abort);
    assert_eq!(parse_timestamp(&c("hello"), now, Zone::Fixed(0)), Stamp::NotTime);
    assert_eq!(expand_subseconds("%.S|%.T|%.s|%.x|%%", 42), "%S.000042|%T.000042|%s.000042|%.x|%%");
    assert_eq!(
        relative_replacement("16 Jun 1994 07:29:35 \u{e9}\u{e9}a".as_bytes(), "%Y", true, now_utc(), Zone::Fixed(0)),
        None
    );
    assert_eq!(replace_timestamps(b"ab", &[], "%Y", true, now_utc(), Zone::Fixed(0)), Some(b"ab".to_vec()));
    assert_eq!(
        replace_timestamps(b"at 2020-01-02T03:04:05.1Z!", &[(3, 25)], "%d", true, now_utc(), Zone::Fixed(0)),
        Some(b"at 02!".to_vec())
    );
}

#[test]
fn sanitizing_twice_is_sanitizing_once() {
    for fmt in ["%.S", "%.%.S", "%.x %", "%%%.T", "a%b%.s%", "%.", "%.%S", "%"] {
        let once = sanitize_relative_format(fmt);
        assert_eq!(sanitize_relative_format(&once), once);
    }
    assert_eq!(sanitize_relative_format("%.%.S"), "%.%%.S");
}

#[test]
fn timezone_system_zone_stamps() {
    // The system's offset is whatever the machine keeps; what does not depend
    // on it is exact.
    let z = absolute_stamp(1718452800, 0, Zone::System, "%z").expect("valid format");
    assert_eq!(z.len(), 5);
    assert!(z.starts_with('+') || z.starts_with('-'));
    let year = absolute_stamp(1718452800, 0, Zone::System, "%Y").expect("valid format");
    assert_eq!(year, "2024");
}

#[test]
fn stamps_with_their_own_zone_in_the_system_zone() {
    let c = |s: &str| s.chars().collect::<Vec<char>>();
    let now = now_utc().local;
    assert_eq!(parse_timestamp(&c("Thu, 16 Jun 1994 07:29:35 GMT"), now, Zone::System), Stamp::Time(771751775));
    assert_eq!(parse_timestamp(&c("2020-01-02T03:04:05.123Z"), now, Zone::System), Stamp::Time(1577934245));
    assert_eq!(parse_timestamp(&c("16 Jun 1994 07:29:35 +0200"), now, Zone::System), Stamp::Time(771751775 - 7200));
    assert_eq!(parse_timestamp(&c("hello"), now, Zone::System), Stamp::NotTime);
}

#[test]
fn relative_conversion_in_the_system_zone() {
    assert_eq!(
        rel(b"before 2020-01-02T03:04:05.123Z after\n", "%Y", true, Zone::System),
        b"before 2020 after\n".to_vec()
    );
    let plain = b"no timestamp \xff here\n";
    assert_eq!(rel(plain, "%Y", true, Zone::System), plain.to_vec());
}

#[test]
fn subseconds_in_a_leap_second() {
    assert_eq!(expand_subseconds("%.S", 1_500_000), "%S.1500000");
    assert_eq!(expand_subseconds("%.s", 999_999), "%s.999999");
}

#[test]
fn local_times_in_the_system_zone_are_within_a_day_of_utc() {
    let c = |s: &str| s.chars().collect::<Vec<char>>();
    let now = now_utc().local;
    match parse_timestamp(&c("2020-01-02T03:04:05.5"), now, Zone::System) {
        Stamp::Time(e) => assert!((e - 1577934245).abs() < 86400),
        other => panic!("{other:?}"),
    }
}
