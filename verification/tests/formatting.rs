use remstats::format::format_bytes;
use remstats::format::format_uptime_parts;
use remstats::stats::Stats;
use remstats::text::parse_u64;
use remstats::text::u64_to_string;

#[test]
fn bytes_plain_below_one_kibibyte() {
    assert_eq!(format_bytes(0), "0 bytes");
    assert_eq!(format_bytes(500), "500 bytes");
    assert_eq!(format_bytes(1023), "1023 bytes");
}

#[test]
fn bytes_kibibytes_with_two_decimals() {
    assert_eq!(format_bytes(1024), "1.00 KiB");
    assert_eq!(format_bytes(2048), "2.00 KiB");
    assert_eq!(format_bytes(1536), "1.50 KiB");
    assert_eq!(format_bytes(2600), "2.54 KiB");
}

#[test]
fn bytes_mebibytes_and_gibibytes() {
    assert_eq!(format_bytes(1048576), "1.00 MiB");
    assert_eq!(format_bytes(5 * 1024 * 1024 * 1024), "5.00 GiB");
    assert_eq!(format_bytes(3 * 1024 * 1024 + 512 * 1024), "3.50 MiB");
}

#[test]
fn uptime_full_breakdown() {
    assert_eq!(format_uptime_parts(90061, 23), "1d 1h 1m 1.23s");
}

#[test]
fn uptime_leading_zero_units_omitted() {
    assert_eq!(format_uptime_parts(59, 0), "59.00s");
    assert_eq!(format_uptime_parts(60, 5), "1m 0.05s");
    assert_eq!(format_uptime_parts(3600, 0), "1h 0m 0.00s");
    assert_eq!(format_uptime_parts(86400, 0), "1d 0h 0m 0.00s");
}

#[test]
fn uptime_method_uses_snapshot_value() {
    let mut st = Stats::new();
    st.update_uptime("3661.50 100.00");
    assert_eq!(st.format_uptime(), "1h 1m 1.50s");
}

#[test]
fn decimal_rendering_round_trips() {
    assert_eq!(u64_to_string(0), "0");
    assert_eq!(u64_to_string(42), "42");
    assert_eq!(u64_to_string(18446744073709551615), "18446744073709551615");
}

#[test]
fn parse_u64_accepts_digits_and_plus_sign() {
    assert_eq!(parse_u64("0"), Some(0));
    assert_eq!(parse_u64("+42"), Some(42));
    assert_eq!(parse_u64("18446744073709551615"), Some(18446744073709551615));
}

#[test]
fn parse_u64_rejects_bad_shapes_and_overflow() {
    assert_eq!(parse_u64(""), None);
    assert_eq!(parse_u64("+"), None);
    assert_eq!(parse_u64("-1"), None);
    assert_eq!(parse_u64("12x"), None);
    assert_eq!(parse_u64("18446744073709551616"), None);
    assert_eq!(parse_u64("99999999999999999999999"), None);
}
