use chrono::TimeZone;
use chrono::{DateTime, Utc};
use compact_ts::token::expand_to_stamp;
use compact_ts::token::parse_flexible_timestamp;
use compact_ts::tz::LocalStamp;
use compact_ts::Base;
use compact_ts::codec::from_base_n;
use compact_ts::codec::to_base_n;
use compact_ts::fmt_check::validate_format_string;

// Helper to create a UTC DateTime for consistent test assertions.
fn make_utc_dt(year: i32, month: u32, day: u32, h: u32, m: u32, s: u32) -> DateTime<Utc> {
    Utc.with_ymd_and_hms(year, month, day, h, m, s).unwrap()
}

// Helper to read a parsed local stamp back as the UTC instant it denotes.
fn stamp_to_utc(st: &LocalStamp) -> DateTime<Utc> {
    chrono::FixedOffset::east_opt(st.offset_secs)
        .unwrap()
        .with_ymd_and_hms(st.year, st.month, st.day, st.hour, st.minute, st.second)
        .unwrap()
        .with_timezone(&Utc)
}

#[test]
fn test_parse_full_iso_with_hyphens() {
    let input = "2025-06-30T22:42:05Z";
    let expected = make_utc_dt(2025, 6, 30, 22, 42, 5);
    let parsed = parse_flexible_timestamp(input).unwrap();
    assert_eq!(stamp_to_utc(&parsed), expected);
}

#[test]
fn test_parse_full_iso_with_offset() {
    let input = "2025-07-01T04:12:05+05:30"; // India Standard Time
    let expected = make_utc_dt(2025, 6, 30, 22, 42, 5);
    let parsed = parse_flexible_timestamp(input).unwrap();
    assert_eq!(stamp_to_utc(&parsed), expected);
}

#[test]
fn test_parse_compact_iso_with_z() {
    // Note: the strict full ISO form does NOT cover this compact form.
    let input = "20250630T224205Z";
    let expected = make_utc_dt(2025, 6, 30, 22, 42, 5);
    let parsed = parse_flexible_timestamp(input).unwrap();
    assert_eq!(stamp_to_utc(&parsed), expected);
}

#[test]
fn test_parse_date_only_with_hyphens() {
    let input = "2025-06-30";
    let parsed = parse_flexible_timestamp(input).unwrap();
    assert_eq!(parsed.year, 2025);
    assert_eq!(parsed.month, 6);
    assert_eq!(parsed.day, 30);
    assert_eq!(parsed.hour, 0);
    assert_eq!(parsed.minute, 0);
}

#[test]
fn test_parse_date_only_compact() {
    let input = "20250630";
    let parsed = parse_flexible_timestamp(input).unwrap();
    assert_eq!(parsed.year, 2025);
    assert_eq!(parsed.month, 6);
    assert_eq!(parsed.day, 30);
    assert_eq!(parsed.hour, 0);
    assert_eq!(parsed.minute, 0);
}

#[test]
fn test_parse_naive_datetime() {
    let input = "2025-06-30T22:42:05";
    let parsed = parse_flexible_timestamp(input).unwrap();
    assert_eq!(parsed.year, 2025);
    assert_eq!(parsed.month, 6);
    assert_eq!(parsed.day, 30);
    assert_eq!(parsed.hour, 22);
    assert_eq!(parsed.minute, 42);
}

#[test]
fn test_parse_invalid_string() {
    let input = "not-a-real-date";
    assert!(parse_flexible_timestamp(input).is_err());
}

#[test]
fn test_base_conversion_to_base() {
    // 22*60 + 42 = 1362 minutes
    assert_eq!(to_base_n(1362, 12), "956");
    assert_eq!(to_base_n(1362, 36), "11U");
    // 20*60 + 48 = 1248 minutes
    assert_eq!(to_base_n(1248, 12), "880");
    assert_eq!(to_base_n(1248, 36), "YO");
}

// --- Tests for `expand` logic ---

#[test]
fn test_base_conversion_from_base() {
    assert_eq!(from_base_n("956", 12).unwrap(), 1362);
    assert_eq!(from_base_n("11U", 36).unwrap(), 1362);
    assert_eq!(from_base_n("880", 12).unwrap(), 1248);
    assert_eq!(from_base_n("YO", 36).unwrap(), 1248);
    assert_eq!(from_base_n("yo", 36).unwrap(), 1248); // case-insensitive
}

#[test]
fn test_base_conversion_from_base_invalid() {
    assert!(from_base_n("95C", 12).is_err()); // C is not in base 12
    assert!(from_base_n("11$", 36).is_err()); // $ is not in base 36
}

#[test]
fn test_validate_format_string() {
    assert!(validate_format_string("%Y-%m-%d %H:%M").is_ok());
    assert!(validate_format_string("%A, %B %d").is_ok());
    assert!(validate_format_string("hello world").is_ok()); // no specifiers is ok
}

#[test]
fn test_validate_format_string_invalid() {
    assert!(validate_format_string("%Y-%m-%d %H:%M:%S").is_err()); // has %S
    assert!(validate_format_string("%Y-%m-%d %H:%M:%S.%f").is_err()); // has %f
    assert!(validate_format_string("%s").is_err()); // has %s
}

// A testable core function for the expansion logic.
fn expand_core(input: &str, base: Base) -> Result<LocalStamp, String> {
    expand_to_stamp(input, base).map_err(|e| {
        match e {
            compact_ts::TsError::NoTokenFound => "no match".to_string(),
            compact_ts::TsError::InvalidMinutes(_) => "invalid minutes".to_string(),
            compact_ts::TsError::InvalidDayOfYear(_) => "invalid doy".to_string(),
            compact_ts::TsError::AmbiguousLocalTime => "ambiguous".to_string(),
            _ => "other".to_string(),
        }
    })
}

#[test]
fn test_expand_core_logic_b12() {
    // 2025-06-30 is day 181. 22:42 is 1362 minutes, which is 956 in base 12.
    let result = expand_core("25-181-956", Base::B12).unwrap();
    assert_eq!(result.year, 2025);
    assert_eq!(result.month, 6);
    assert_eq!(result.day, 30);
    assert_eq!(result.hour, 22);
    assert_eq!(result.minute, 42);
}

#[test]
fn test_expand_core_logic_b36() {
    // 2025-06-30 is day 181. 22:42 is 1362 minutes, which is 11U in base 36.
    let result = expand_core("prefix-25-181-11U-suffix", Base::B36).unwrap();
    assert_eq!(result.year, 2025);
    assert_eq!(result.month, 6);
    assert_eq!(result.day, 30);
    assert_eq!(result.hour, 22);
    assert_eq!(result.minute, 42);
}

#[test]
fn test_expand_core_invalid_doy() {
    // 2025 is not a leap year, so 366 is invalid.
    assert!(expand_core("25-366-000", Base::B12).is_err());
    // 2024 is a leap year.
    assert!(expand_core("24-366-000", Base::B12).is_ok());
}

#[test]
fn test_expand_core_invalid_minutes() {
    // AAA in base 12 is 10*144 + 10*12 + 10 = 1570, which is > 1439.
    let result = expand_core("25-181-AAA", Base::B12);
    assert!(result.is_err());
    assert_eq!(result.unwrap_err(), "invalid minutes");
}
