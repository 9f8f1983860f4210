use etilbudsavis_cli::date::{parse_date, Date};

#[test]
fn parses_iso_timestamp_down_to_date() {
    assert_eq!(
        parse_date("2024-01-01T00:00:00Z"),
        Some(Date { year: 2024, month: 1, day: 1 })
    );
    assert_eq!(
        parse_date("2024-01-08T23:59:59+02:00"),
        Some(Date { year: 2024, month: 1, day: 8 })
    );
}

#[test]
fn parses_bare_date_without_time_part() {
    assert_eq!(
        parse_date("1999-12-31"),
        Some(Date { year: 1999, month: 12, day: 31 })
    );
}

#[test]
fn leap_years_are_respected() {
    assert_eq!(
        parse_date("2024-02-29T00:00:00Z"),
        Some(Date { year: 2024, month: 2, day: 29 })
    );
    assert_eq!(parse_date("2023-02-29T00:00:00Z"), None);
    assert_eq!(parse_date("1900-02-29"), None);
    assert_eq!(
        parse_date("2000-02-29"),
        Some(Date { year: 2000, month: 2, day: 29 })
    );
}

#[test]
fn malformed_dates_are_rejected() {
    assert_eq!(parse_date(""), None);
    assert_eq!(parse_date("20240101"), None);
    assert_eq!(parse_date("2024-13-01"), None);
    assert_eq!(parse_date("2024-00-10"), None);
    assert_eq!(parse_date("2024-04-31"), None);
    assert_eq!(parse_date("2024-01-00"), None);
    assert_eq!(parse_date("2024/01/01"), None);
    assert_eq!(parse_date("2024-01-01x"), None);
    assert_eq!(parse_date("yyyy-mm-ddT00:00:00Z"), None);
}

#[test]
fn date_ordering_is_chronological() {
    let a = Date { year: 2024, month: 1, day: 1 };
    let b = Date { year: 2024, month: 1, day: 8 };
    let c = Date { year: 2023, month: 12, day: 31 };
    assert!(a.lt(&b));
    assert!(!b.lt(&a));
    assert!(c.lt(&a));
    assert!(a.le(&a));
    assert!(!a.lt(&a));
}

#[test]
fn wellformedness_check_matches_the_calendar() {
    assert!(Date { year: 2024, month: 2, day: 29 }.is_wf());
    assert!(!Date { year: 2023, month: 2, day: 29 }.is_wf());
    assert!(!Date { year: 2024, month: 13, day: 1 }.is_wf());
    assert!(!Date { year: -1, month: 1, day: 1 }.is_wf());
}
