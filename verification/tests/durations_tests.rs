use waterwheel::durations::{duration_text_safe, optional_secs, parse_duration, period_from_string, setting_secs};

#[test]
fn test_period_from_string() {
    assert_eq!(period_from_string(None).unwrap(), None);

    assert_eq!(period_from_string(Some("1m")).unwrap(), Some(60));
    assert_eq!(period_from_string(Some("10m")).unwrap(), Some(600));
    assert_eq!(period_from_string(Some("1h")).unwrap(), Some(3600));

    assert_eq!(period_from_string(Some("-1m")).unwrap(), Some(-60));
    assert_eq!(period_from_string(Some("-10m")).unwrap(), Some(-600));
    assert_eq!(period_from_string(Some("-1h")).unwrap(), Some(-3600));

    assert_eq!(period_from_string(Some("- 1m")).unwrap(), Some(-60));
}

#[test]
fn test_period_from_string_errors() {
    let res = period_from_string(Some("1"));
    assert_eq!(res.unwrap_err().to_string().as_str(), "time unit needed, for example 1sec or 1ms");

    let res = period_from_string(Some("1x"));
    assert_eq!(res.unwrap_err().to_string().as_str(), "unknown time unit \"x\", \
        supported units: ns, us, ms, sec, min, hours, days, weeks, months, years (and few variations)");

    let res = period_from_string(Some(""));
    assert_eq!(res.unwrap_err().to_string().as_str(), "value was empty");

    let res = period_from_string(Some(" -1m"));
    assert_eq!(res.unwrap_err().to_string().as_str(), "expected number at 0");
}

#[test]
fn period_strips_every_leading_dash_and_wraps() {
    assert_eq!(period_from_string(Some("--1m")).unwrap(), Some(-60));
    // seconds are cut to 32 bits: 2^32 + 5 seconds becomes 5
    assert_eq!(period_from_string(Some("4294967301s")).unwrap(), Some(5));
    assert_eq!(
        period_from_string(Some("0")).unwrap_err().to_string(),
        "time unit needed, for example 0sec or 0ms"
    );
}

#[test]
fn setting_secs_drops_fractions() {
    assert_eq!(setting_secs("5m").unwrap(), 300);
    assert_eq!(setting_secs("1500ms").unwrap(), 1);
    assert_eq!(setting_secs("1h 30m").unwrap(), 5400);
    assert_eq!(setting_secs("").unwrap_err(), "value was empty");
}

#[test]
fn optional_secs_parses_or_passes_none() {
    assert_eq!(optional_secs(None).unwrap(), None);
    assert_eq!(optional_secs(Some("2m")).unwrap(), Some(120));
    assert_eq!(optional_secs(Some("1x")).unwrap_err(), "unknown time unit \"x\", \
        supported units: ns, us, ms, sec, min, hours, days, weeks, months, years (and few variations)");
}

#[test]
fn duration_that_would_overflow_is_refused() {
    assert!(!duration_text_safe("18446744073709551615s 1000ms"));
    assert_eq!(parse_duration("18446744073709551615s 1000ms"), Err("number is too large".to_owned()));
    assert_eq!(setting_secs("18446744073709551615s 1000ms"), Err("number is too large".to_owned()));
    assert!(period_from_string(Some("18446744073709551615s 1000ms")).is_err());
}

#[test]
fn ordinary_durations_pass_the_guard() {
    assert!(duration_text_safe("1h"));
    assert!(duration_text_safe("99999999999999999s"));
    assert!(duration_text_safe("1h 30m 15s 500ms"));
    assert_eq!(parse_duration("1h 30m"), Ok((5400, 0)));
    assert_eq!(parse_duration("2s 500ms"), Ok((2, 500_000_000)));
    assert_eq!(parse_duration("99999999999999999s"), Ok((99999999999999999, 0)));
}

#[test]
fn largest_durations_still_parse() {
    assert!(duration_text_safe("18446744073709551615s"));
    assert_eq!(parse_duration("18446744073709551615s"), Ok((u64::MAX, 0)));
    assert_eq!(parse_duration("100000000000000000m"), Ok((6_000_000_000_000_000_000, 0)));
    assert_eq!(parse_duration("7000000000000 months"), Ok((7_000_000_000_000 * 2_630_016, 0)));
    assert!(!duration_text_safe("8000000000000 months"));
    assert_eq!(parse_duration("8000000000000 months"), Err("number is too large".to_owned()));
}

#[test]
fn large_sums_of_small_units_parse() {
    let two = "10000000000000000000ns 10000000000000000000ns";
    assert!(duration_text_safe(two));
    assert_eq!(parse_duration(two), Ok((20_000_000_000, 0)));
    assert_eq!(period_from_string(Some(two)).unwrap(), Some(-1_474_836_480));
    assert_eq!(parse_duration("7000000000000M"), Ok((18_410_112_000_000_000_000, 0)));
    assert_eq!(parse_duration("18446744073709551615s 999999999ns"), Ok((u64::MAX, 999_999_999)));
}

#[test]
fn texts_the_parser_refuses_keep_its_message() {
    assert_eq!(
        parse_duration("1000000000000x"),
        Err("unknown time unit \"x\", supported units: ns, us, ms, sec, min, hours, days, weeks, months, years (and few variations)".to_owned())
    );
    assert_eq!(parse_duration("1000000000000"), Err("time unit needed, for example 1000000000000sec or 1000000000000ms".to_owned()));
    assert_eq!(parse_duration("18446744073709551615s 1s"), Err("number is too large".to_owned()));
    assert!(duration_text_safe("18446744073709551615s 1000ms x"));
}
