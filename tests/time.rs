use ulaw_vad::time::format_time;

#[test]
fn format_time_zero() {
    assert_eq!(format_time(0), "00:00:00.000");
}

#[test]
fn format_time_fields() {
    assert_eq!(format_time(100), "00:00:00.100");
    assert_eq!(format_time(61_005), "00:01:01.005");
    assert_eq!(format_time(3_723_456), "01:02:03.456");
}

#[test]
fn format_time_wraps_minutes_and_seconds() {
    assert_eq!(format_time(59_999), "00:00:59.999");
    assert_eq!(format_time(3_599_999), "00:59:59.999");
    assert_eq!(format_time(3_600_000), "01:00:00.000");
}

#[test]
fn format_time_long_hours() {
    assert_eq!(format_time(i32::MAX), "596:31:23.647");
}
