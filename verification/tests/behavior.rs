use chrono::Datelike;
use chrono::Timelike;
use compact_ts::Base;
use compact_ts::ExpandArgs;
use compact_ts::GenerateArgs;
use compact_ts::TsError;
use compact_ts::codec::from_base_n;
use compact_ts::fmt_check::validate_format_string;
use compact_ts::codec::pad3;
use compact_ts::codec::to_base_n;
use compact_ts::token::expand_command;
use compact_ts::token::expand_to_stamp;
use compact_ts::token::generate_command;
use compact_ts::token::parse_flexible_timestamp;

fn generate(from: &str, base: Base) -> Result<String, TsError> {
    generate_command(&GenerateArgs { base, from: Some(from.to_string()) })
}

fn expand(input: &str, base: Base, format: &str) -> Result<String, TsError> {
    expand_command(
        &ExpandArgs {
            input_string: input.to_string(),
            base,
            format: format.to_string(),
        },
    )
}

#[test]
fn generate_base12_scenario() {
    // A local time of 2025-06-30 22:42:05: day 181, 1362 minutes, seconds
    // truncated.
    assert_eq!(generate("2025-06-30T22:42:05", Base::B12).unwrap(), "25-181-956");
}

#[test]
fn generate_base36_scenario() {
    assert_eq!(generate("2025-06-30T22:42:05", Base::B36).unwrap(), "25-181-11U");
}

#[test]
fn generate_midnight_pads_minutes_to_three_zeros() {
    assert_eq!(generate("2025-06-30", Base::B12).unwrap(), "25-181-000");
}

#[test]
fn generate_without_from_yields_token_shape() {
    let tok = generate_command(&GenerateArgs { base: Base::B12, from: None }).unwrap();
    let bytes = tok.as_bytes();
    assert_eq!(bytes.len(), 10);
    assert_eq!(bytes[2], b'-');
    assert_eq!(bytes[6], b'-');
    assert!(bytes[0].is_ascii_digit() && bytes[1].is_ascii_digit());
    assert!(bytes[3].is_ascii_digit() && bytes[4].is_ascii_digit() && bytes[5].is_ascii_digit());
}

#[test]
fn generate_from_offset_input_uses_local_wall_clock() {
    let tok = generate("2025-07-01T04:12:05+05:30", Base::B12).unwrap();
    let dt = chrono::DateTime::parse_from_rfc3339("2025-07-01T04:12:05+05:30")
        .unwrap()
        .with_timezone(&chrono::Local);
    let minutes = dt.hour() * 60 + dt.minute();
    let expected = format!(
        "{:02}-{:03}-{:0>3}",
        dt.year().rem_euclid(100),
        dt.ordinal(),
        to_base_n(minutes, 12)
    );
    assert_eq!(tok, expected);
}

#[test]
fn generate_propagates_parse_failure() {
    assert_eq!(generate("nonsense", Base::B12), Err(TsError::ParseFailure));
}

#[test]
fn expand_base12_scenario() {
    assert_eq!(
        expand("log-25-181-956.txt", Base::B12, "%Y-%m-%dT%H:%M").unwrap(),
        "2025-06-30T22:42"
    );
}

#[test]
fn expand_base36_scenario() {
    assert_eq!(
        expand("prefix-25-181-11U-suffix", Base::B36, "%Y-%m-%dT%H:%M").unwrap(),
        "2025-06-30T22:42"
    );
}

#[test]
fn expand_rejects_invalid_day_of_year() {
    assert_eq!(
        expand("25-366-000", Base::B12, "%Y-%m-%dT%H:%M"),
        Err(TsError::InvalidDayOfYear(366))
    );
}

#[test]
fn expand_rejects_minutes_of_a_day_or_more() {
    // AAA in base 12 decodes to 1570.
    assert_eq!(
        expand("25-181-AAA", Base::B12, "%Y-%m-%dT%H:%M"),
        Err(TsError::InvalidMinutes(1570))
    );
}

#[test]
fn expand_reports_missing_token() {
    assert_eq!(
        expand("no token here", Base::B12, "%Y-%m-%dT%H:%M"),
        Err(TsError::NoTokenFound)
    );
}

#[test]
fn expand_rejects_sub_minute_template_before_searching() {
    assert_eq!(
        expand("log-25-181-956.txt", Base::B12, "%H:%M:%S"),
        Err(TsError::InvalidFormatTemplate)
    );
}

#[test]
fn validate_rejects_every_seconds_carrying_placeholder() {
    for bad in [
        "%S", "%s", "%f", "%T", "%X", "%c", "%r", "%+", "%-S", "%0S", "%_S", "%-s", "%-f",
        "%.f", "%3f", "%6f", "%9f", "%.3f", "%.6f", "%.9f", "%H:%M %T",
    ] {
        assert!(validate_format_string(bad).is_err(), "accepted {bad}");
    }
    for good in ["%Y-%m-%dT%H:%M", "%A, %B %d", "%R", "hello world", ""] {
        assert!(validate_format_string(good).is_ok(), "rejected {good}");
    }
}

#[test]
fn expand_rejects_composite_seconds_template() {
    assert_eq!(
        expand("log-25-181-956.txt", Base::B12, "%T"),
        Err(TsError::InvalidFormatTemplate)
    );
}

#[test]
fn expand_finds_leftmost_token() {
    // Two tokens; the earlier one wins.
    assert_eq!(
        expand("a 25-001-000 b 25-181-956", Base::B12, "%Y-%m-%dT%H:%M").unwrap(),
        "2025-01-01T00:00"
    );
}

#[test]
fn expand_base12_accepts_lowercase_minutes_digits() {
    // Base digits match case-insensitively: 9ab in base 12 is
    // 9*144 + 10*12 + 11 = 1427 minutes, 23:47.
    assert_eq!(
        expand("25-181-9ab", Base::B12, "%Y-%m-%dT%H:%M").unwrap(),
        "2025-06-30T23:47"
    );
}

#[test]
fn round_trip_through_expand_recovers_the_minute() {
    for base in [Base::B12, Base::B36] {
        let tok = generate("2025-06-30T22:42:05", base).unwrap();
        let st = expand_to_stamp(&tok, base).unwrap();
        assert_eq!((st.year, st.month, st.day, st.hour, st.minute), (2025, 6, 30, 22, 42));
    }
}

#[test]
fn decode_inverts_encode_for_every_minute_value() {
    for base in [12u32, 36] {
        for n in 0..1440u32 {
            assert_eq!(from_base_n(&to_base_n(n, base), base).unwrap(), n);
        }
    }
}

#[test]
fn encode_fits_three_digits_for_minutes() {
    for base in [12u32, 36] {
        for n in 0..1440u32 {
            assert!(to_base_n(n, base).len() <= 3);
        }
    }
    assert_eq!(to_base_n(1439, 12), "9BB");
    assert_eq!(to_base_n(1439, 36), "13Z");
    assert_eq!(to_base_n(0, 12), "0");
}

#[test]
fn padding_is_left_padding_with_zeros() {
    assert_eq!(pad3("6"), "006");
    assert_eq!(pad3("56"), "056");
    assert_eq!(pad3("956"), "956");
    assert_eq!(pad3("1439"), "1439");
}

#[test]
fn from_base_reports_invalid_digit() {
    assert_eq!(from_base_n("95C", 12), Err(TsError::InvalidDigit));
    assert_eq!(from_base_n("", 12), Err(TsError::InvalidDigit));
    assert_eq!(from_base_n("ZZZZZZZZ", 36), Err(TsError::InvalidDigit));
    // A sign is not a digit either.
    assert_eq!(from_base_n("+956", 12), Err(TsError::InvalidDigit));
}

#[test]
fn parser_prefers_earlier_formats() {
    // The compact-with-Z string must use the compact-with-Z rule rather
    // than be rejected by the stricter full ISO rule.
    let st = parse_flexible_timestamp("20250630T224205Z").unwrap();
    // A literal Z means UTC: local fields shifted by the local offset.
    let utc = chrono::TimeZone::with_ymd_and_hms(
        &chrono::FixedOffset::east_opt(st.offset_secs).unwrap(),
        st.year,
        st.month,
        st.day,
        st.hour,
        st.minute,
        st.second,
    )
    .unwrap()
    .with_timezone(&chrono::Utc);
    assert_eq!(
        utc,
        chrono::TimeZone::with_ymd_and_hms(&chrono::Utc, 2025, 6, 30, 22, 42, 5).unwrap()
    );
}

#[test]
fn parser_accepts_each_documented_format() {
    let inputs = [
        "2025-06-30T22:42:05Z",
        "2025-06-28T20:28+02:00",
        "20250628T20:28+02:00",
        "20250630T224205Z",
        "2025-06-30T22:42:05",
        "2025-06-30T22:42",
        "2025-06-30T2242",
        "20250630T22:42",
        "20250630T2242",
        "2025-06-30",
        "20250630",
    ];
    for input in inputs {
        assert!(parse_flexible_timestamp(input).is_ok(), "rejected {input}");
    }
}

#[test]
fn parser_rejects_malformed_strings() {
    for input in ["2025-13-01", "2025-02-30", "20250630T2460", "2025-06-30T22:42:05+25:00", ""] {
        assert_eq!(parse_flexible_timestamp(input), Err(TsError::ParseFailure), "accepted {input}");
    }
}
