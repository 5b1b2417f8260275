use ast_line_core::time::{chrono_now, days_to_date, format_timestamp, is_leap};

#[test]
fn leap_years_follow_the_gregorian_rule() {
    assert!(is_leap(2000));
    assert!(is_leap(2024));
    assert!(!is_leap(1900));
    assert!(!is_leap(2023));
    assert!(!is_leap(2100));
}

#[test]
fn days_to_date_of_epoch_and_known_days() {
    assert_eq!(days_to_date(0), (1970, 1, 1));
    assert_eq!(days_to_date(31), (1970, 2, 1));
    assert_eq!(days_to_date(59), (1970, 3, 1));
    assert_eq!(days_to_date(365), (1971, 1, 1));
    assert_eq!(days_to_date(10957), (2000, 1, 1));
    assert_eq!(days_to_date(11016), (2000, 2, 29));
    assert_eq!(days_to_date(11017), (2000, 3, 1));
    assert_eq!(days_to_date(19722), (2023, 12, 31));
}

#[test]
fn distinct_days_give_distinct_dates() {
    let mut prev = days_to_date(0);
    for d in 1..1500u64 {
        let cur = days_to_date(d);
        assert_ne!(cur, prev);
        prev = cur;
    }
}

#[test]
fn format_timestamp_renders_iso_8601() {
    assert_eq!(format_timestamp(0), "1970-01-01T00:00:00Z");
    assert_eq!(format_timestamp(951782400), "2000-02-29T00:00:00Z");
    assert_eq!(format_timestamp(1700000000), "2023-11-14T22:13:20Z");
    assert_eq!(format_timestamp(86399), "1970-01-01T23:59:59Z");
}

#[test]
fn chrono_now_has_the_iso_shape() {
    let t = chrono_now();
    assert_eq!(t.len(), 20);
    assert!(t.ends_with('Z'));
    assert_eq!(&t[4..5], "-");
    assert_eq!(&t[10..11], "T");
    assert!(t.as_str() >= "2020");
}

#[test]
fn later_days_give_later_dates() {
    assert!(days_to_date(58) < days_to_date(59));
    assert_eq!(days_to_date(58), (1970, 2, 28));
    assert!(days_to_date(364) < days_to_date(365));
    assert!(days_to_date(11016) < days_to_date(11017));
    let mut prev = days_to_date(0);
    for d in 1..1500u64 {
        let cur = days_to_date(d);
        assert!(prev < cur);
        prev = cur;
    }
}
