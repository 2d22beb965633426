use report_engine::common::{parse_date, parse_float, parse_int, parse_string};
use report_engine::date::Date;
use report_engine::num::{format_number, int_to_string, parse_decimal, parse_i32};

#[test]
fn parse_int_plain() {
    assert_eq!(parse_i32("1234"), Some(1234));
}

#[test]
fn parse_int_strips_commas() {
    assert_eq!(parse_i32("1,234,567"), Some(1234567));
}

#[test]
fn parse_int_signs() {
    assert_eq!(parse_i32("-42"), Some(-42));
    assert_eq!(parse_i32("+42"), Some(42));
}

#[test]
fn parse_int_extremes() {
    assert_eq!(parse_i32("2147483647"), Some(i32::MAX));
    assert_eq!(parse_i32("-2147483648"), Some(i32::MIN));
    assert_eq!(parse_i32("2147483648"), None);
    assert_eq!(parse_i32("-2147483649"), None);
    assert_eq!(parse_i32("99999999999999999999"), None);
}

#[test]
fn parse_int_rejects_malformed() {
    assert_eq!(parse_i32(""), None);
    assert_eq!(parse_i32("-"), None);
    assert_eq!(parse_i32("+"), None);
    assert_eq!(parse_i32("12a"), None);
    assert_eq!(parse_i32("1.5"), None);
}

#[test]
fn parse_decimal_keeps_fraction_text() {
    assert_eq!(parse_decimal("1,234.50").as_deref(), Some("1234.50"));
    assert_eq!(parse_decimal("-0.5").as_deref(), Some("-0.5"));
    assert_eq!(parse_decimal("12").as_deref(), Some("12"));
}

#[test]
fn parse_decimal_rejects_malformed() {
    assert_eq!(parse_decimal("abc"), None);
    assert_eq!(parse_decimal(""), None);
    assert_eq!(parse_decimal("1."), None);
    assert_eq!(parse_decimal(".5"), None);
    assert_eq!(parse_decimal("+"), None);
}

#[test]
fn parse_decimal_keeps_not_applicable_marker() {
    assert_eq!(parse_decimal("-").as_deref(), Some("-"));
}

#[test]
fn coercers_absorb_absence() {
    assert_eq!(parse_int(None), None);
    assert_eq!(parse_date(None), None);
    assert_eq!(parse_float(None), None);
    assert_eq!(parse_string(None), None);
}

#[test]
fn coercers_absorb_failure() {
    assert_eq!(parse_int(Some("not a number")), None);
    assert_eq!(parse_date(Some("not a date")), None);
    assert_eq!(parse_float(Some("one point five")), None);
}

#[test]
fn parse_date_strict_pattern() {
    assert_eq!(
        parse_date(Some("2024/01/15")),
        Some(Date { year: 2024, month: 1, day: 15 })
    );
    assert_eq!(parse_date(Some("2024-01-15")), None);
    assert_eq!(parse_date(Some("2024/1/15")), None);
}

#[test]
fn parse_date_rejects_impossible_days() {
    assert_eq!(parse_date(Some("2024/02/30")), None);
    assert_eq!(parse_date(Some("2023/02/29")), None);
    assert_eq!(parse_date(Some("2024/13/01")), None);
    assert_eq!(parse_date(Some("2024/00/10")), None);
    assert_eq!(parse_date(Some("2024/04/31")), None);
}

#[test]
fn parse_date_accepts_leap_day() {
    assert_eq!(
        parse_date(Some("2024/02/29")),
        Some(Date { year: 2024, month: 2, day: 29 })
    );
    assert_eq!(parse_date(Some("2000/02/29")), Some(Date { year: 2000, month: 2, day: 29 }));
    assert_eq!(parse_date(Some("1900/02/29")), None);
}

#[test]
fn format_number_groups_thousands() {
    assert_eq!(format_number("1234567"), "1,234,567");
    assert_eq!(format_number("1000"), "1,000");
    assert_eq!(format_number("999"), "999");
    assert_eq!(format_number("0"), "0");
}

#[test]
fn format_number_keeps_sign_and_fraction() {
    assert_eq!(format_number("-1234567.89"), "-1,234,567.89");
    assert_eq!(format_number("1234.50"), "1,234.50");
}

#[test]
fn format_number_regroups_existing_commas() {
    assert_eq!(format_number("12,34,567"), "1,234,567");
}

#[test]
fn format_number_passes_dash_through() {
    assert_eq!(format_number("-"), "-");
    assert_eq!(format_number(""), "");
}

#[test]
fn format_then_reparse_round_trips() {
    for raw in ["0", "7", "999", "1000", "1234567", "-1234567", "+2000000", "2,147,483,647"] {
        let formatted = format_number(raw);
        assert_eq!(parse_i32(&formatted), parse_i32(raw));
        assert!(parse_i32(raw).is_some());
    }
    for raw in ["1234.5", "-9876543.21", "0.001"] {
        let formatted = format_number(raw);
        assert_eq!(parse_decimal(&formatted), parse_decimal(raw));
        assert!(parse_decimal(raw).is_some());
    }
}

#[test]
fn int_to_string_renders_decimal() {
    assert_eq!(int_to_string(0), "0");
    assert_eq!(int_to_string(-12345), "-12345");
    assert_eq!(int_to_string(2147483647), "2147483647");
    assert_eq!(int_to_string(-2147483648), "-2147483648");
}

#[test]
fn parse_string_copies() {
    assert_eq!(parse_string(Some("特定口座")).as_deref(), Some("特定口座"));
}
