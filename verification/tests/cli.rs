use std::time::Duration;

use neowright::cli::{parse_duration, parse_size, Size};

#[test]
fn parses_size() {
    assert_eq!(
        parse_size("240x70"),
        Ok(Size {
            cols: 240,
            rows: 70
        })
    );
}

#[test]
fn rejects_invalid_size() {
    assert!(parse_size("240").is_err());
    assert!(parse_size("0x70").is_err());
}

#[test]
fn parses_duration() {
    assert_eq!(parse_duration("500ms"), Ok(Duration::from_millis(500)));
    assert_eq!(parse_duration("5s"), Ok(Duration::from_secs(5)));
}

#[test]
fn rejects_invalid_duration() {
    assert!(parse_duration("500").is_err());
    assert!(parse_duration("xs").is_err());
}

#[test]
fn size_errors_name_the_failing_part() {
    assert_eq!(
        parse_size("240"),
        Err("size must use COLSxROWS, for example 240x70".to_string())
    );
    assert_eq!(
        parse_size("-1x10"),
        Err("size columns must be a positive integer".to_string())
    );
    assert_eq!(
        parse_size("10x"),
        Err("size rows must be a positive integer".to_string())
    );
    assert_eq!(
        parse_size("10x10x10"),
        Err("size rows must be a positive integer".to_string())
    );
    assert_eq!(
        parse_size("10x0"),
        Err("size columns and rows must be greater than zero".to_string())
    );
    assert_eq!(
        parse_size("65536x10"),
        Err("size columns must be a positive integer".to_string())
    );
}

#[test]
fn size_accepts_plus_sign_and_leading_zeros_like_str_parse() {
    assert_eq!(parse_size("+40x010"), Ok(Size { cols: 40, rows: 10 }));
    assert_eq!(parse_size("65535x1"), Ok(Size { cols: 65535, rows: 1 }));
}

#[test]
fn size_display_round_trips_through_parse() {
    let size = Size { cols: 100, rows: 30 };
    assert_eq!(size.to_string(), "100x30");
    assert_eq!(parse_size(&size.to_string()), Ok(size));
}

#[test]
fn default_size_is_240_by_70() {
    assert_eq!(Size::default(), Size { cols: 240, rows: 70 });
}

#[test]
fn duration_errors_follow_the_unit() {
    assert_eq!(
        parse_duration("ms"),
        Err("duration milliseconds must be a positive integer".to_string())
    );
    assert_eq!(
        parse_duration("xs"),
        Err("duration seconds must be a positive integer".to_string())
    );
    assert_eq!(
        parse_duration("500"),
        Err("duration must use ms or s, for example 500ms or 5s".to_string())
    );
    assert_eq!(
        parse_duration("18446744073709551615ms"),
        Ok(Duration::from_millis(u64::MAX))
    );
    assert!(parse_duration("18446744073709551616ms").is_err());
}

#[test]
fn size_parses_through_from_str() {
    assert_eq!("100x30".parse::<Size>(), Ok(Size { cols: 100, rows: 30 }));
    assert_eq!(
        "100".parse::<Size>(),
        Err("size must use COLSxROWS, for example 240x70".to_string())
    );
}

#[test]
fn seconds_and_milliseconds_give_the_same_duration() {
    assert_eq!(parse_duration("5s"), parse_duration("5000ms"));
    assert_eq!(parse_duration("0s"), parse_duration("0ms"));
}
