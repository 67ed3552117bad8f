use eternal_gauntlet::timecode::{find_field_end, parse_field, parse_time_code, parse_time_to_seconds};

#[test]
fn reads_minutes_and_seconds() {
    assert_eq!(parse_time_to_seconds("0:10"), 10);
    assert_eq!(parse_time_to_seconds("1:30"), 90);
    assert_eq!(parse_time_to_seconds("12:05"), 725);
    assert_eq!(parse_time_to_seconds("0:00"), 0);
}

#[test]
fn unreadable_fields_count_as_zero() {
    assert_eq!(parse_time_to_seconds("x:10"), 10);
    assert_eq!(parse_time_to_seconds("2:xx"), 120);
    assert_eq!(parse_time_to_seconds("abc"), 0);
    assert_eq!(parse_time_to_seconds(" 1:30"), 30);
    assert_eq!(parse_time_to_seconds("1.5:05"), 5);
    assert_eq!(parse_time_to_seconds("-1:05"), 5);
    assert_eq!(parse_time_to_seconds("1: 5"), 60);
}

#[test]
fn missing_fields_count_as_zero() {
    assert_eq!(parse_time_to_seconds(""), 0);
    assert_eq!(parse_time_to_seconds(":"), 0);
    assert_eq!(parse_time_to_seconds("5"), 300);
    assert_eq!(parse_time_to_seconds("5:"), 300);
    assert_eq!(parse_time_to_seconds(":30"), 30);
}

#[test]
fn fields_after_the_second_are_ignored() {
    assert_eq!(parse_time_to_seconds("1:2:3"), 62);
    assert_eq!(parse_time_to_seconds("1:2:"), 62);
    assert_eq!(parse_time_to_seconds("1::3"), 60);
}

#[test]
fn a_field_beyond_32_bits_counts_as_zero() {
    assert_eq!(parse_time_to_seconds("4294967295:0"), 4294967295u64 * 60);
    assert_eq!(parse_time_to_seconds("4294967296:7"), 7);
    assert_eq!(parse_time_to_seconds("0:4294967295"), 4294967295);
    assert_eq!(parse_time_to_seconds("99999999999999999999999:1"), 1);
    assert_eq!(
        parse_time_to_seconds("4294967295:4294967295"),
        4294967295u64 * 60 + 4294967295
    );
}

#[test]
fn leading_zeros_are_digits() {
    assert_eq!(parse_time_to_seconds("01:09"), 69);
    assert_eq!(parse_time_to_seconds("000000000000001:0"), 60);
}

#[test]
fn non_ascii_text_counts_as_zero() {
    assert_eq!(parse_time_to_seconds("１:30"), 30);
    assert_eq!(parse_time_to_seconds("é"), 0);
}

#[test]
fn field_boundaries() {
    let bytes = "12:34".as_bytes();
    assert_eq!(find_field_end(bytes, 0), 2);
    assert_eq!(find_field_end(bytes, 3), 5);
    assert_eq!(find_field_end(bytes, 5), 5);
    assert_eq!(parse_field(bytes, 0, 2), 12);
    assert_eq!(parse_field(bytes, 3, 5), 34);
    assert_eq!(parse_field(bytes, 0, 5), 0);
    assert_eq!(parse_field(bytes, 2, 2), 0);
    assert_eq!(parse_time_code(bytes), 12 * 60 + 34);
}
