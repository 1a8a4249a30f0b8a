use door_monitor::names::dest_key;
use door_monitor::names::frame_name;
use door_monitor::names::parse_frame_name;
use door_monitor::names::time_base;
use door_monitor::timestamp::Timestamp;

fn ts(year: u16, month: u8, day: u8, hour: u8, minute: u8, second: u8) -> Timestamp {
    Timestamp { year, month, day, hour, minute, second }
}

#[test]
fn frame_name_formats_exactly() {
    let name = frame_name(&ts(2024, 1, 1, 10, 0, 0));
    assert_eq!(name, b"door-20240101-10:00:00.jpg".to_vec());
}

#[test]
fn frame_name_pads_every_field() {
    let name = frame_name(&ts(87, 9, 3, 4, 5, 6));
    assert_eq!(name, b"door-00870903-04:05:06.jpg".to_vec());
}

#[test]
fn time_base_formats_exactly() {
    let base = time_base(&ts(2024, 1, 1, 10, 0, 10));
    assert_eq!(base, b"20240101_10:00:10".to_vec());
}

#[test]
fn dest_key_pads_sequence_number() {
    let now = ts(2024, 1, 1, 10, 0, 10);
    assert_eq!(dest_key(&now, 1), b"20240101_10:00:10/detection_01".to_vec());
    assert_eq!(dest_key(&now, 10), b"20240101_10:00:10/detection_10".to_vec());
    assert_eq!(dest_key(&now, 100), b"20240101_10:00:10/detection_100".to_vec());
}

#[test]
fn parse_round_trips() {
    let t = ts(2024, 2, 29, 23, 59, 59);
    let name = frame_name(&t);
    assert_eq!(parse_frame_name(&name), Some(t));
}

#[test]
fn parse_reads_fields() {
    let r = parse_frame_name(b"door-20240101-10:00:09.jpg");
    assert_eq!(r, Some(ts(2024, 1, 1, 10, 0, 9)));
}

#[test]
fn parse_rejects_wrong_prefix() {
    assert_eq!(parse_frame_name(b"gate-20240101-10:00:00.jpg"), None);
}

#[test]
fn parse_rejects_wrong_length() {
    assert_eq!(parse_frame_name(b"door-20240101-10:00:00.jpeg"), None);
    assert_eq!(parse_frame_name(b""), None);
}

#[test]
fn parse_rejects_non_digits() {
    assert_eq!(parse_frame_name(b"door-2024x101-10:00:00.jpg"), None);
}

#[test]
fn parse_rejects_impossible_dates() {
    assert_eq!(parse_frame_name(b"door-20241301-10:00:00.jpg"), None);
    assert_eq!(parse_frame_name(b"door-20240100-10:00:00.jpg"), None);
    assert_eq!(parse_frame_name(b"door-20240132-10:00:00.jpg"), None);
    // february 29 exists only in leap years
    assert_eq!(parse_frame_name(b"door-20230229-10:00:00.jpg"), None);
    assert!(parse_frame_name(b"door-20240229-10:00:00.jpg").is_some());
}

#[test]
fn parse_rejects_impossible_times() {
    assert_eq!(parse_frame_name(b"door-20240101-24:00:00.jpg"), None);
    assert_eq!(parse_frame_name(b"door-20240101-10:60:00.jpg"), None);
    assert_eq!(parse_frame_name(b"door-20240101-10:00:60.jpg"), None);
}
