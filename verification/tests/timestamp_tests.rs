use door_monitor::timestamp::Timestamp;
use door_monitor::timestamp::month_length;

fn ts(year: u16, month: u8, day: u8, hour: u8, minute: u8, second: u8) -> Timestamp {
    Timestamp { year, month, day, hour, minute, second }
}

#[test]
fn seconds_start_at_year_zero() {
    assert_eq!(ts(0, 1, 1, 0, 0, 0).to_seconds(), 0);
    assert_eq!(ts(0, 1, 1, 0, 0, 1).to_seconds(), 1);
    assert_eq!(ts(0, 1, 2, 0, 0, 0).to_seconds(), 86400);
}

#[test]
fn seconds_count_time_of_day() {
    let base = ts(2024, 1, 1, 0, 0, 0).to_seconds();
    assert_eq!(ts(2024, 1, 1, 10, 0, 0).to_seconds() - base, 10 * 3600);
    assert_eq!(ts(2024, 1, 1, 0, 59, 0).to_seconds() - base, 59 * 60);
    assert_eq!(ts(2024, 1, 1, 23, 59, 59).to_seconds() - base, 86399);
}

#[test]
fn seconds_cross_leap_day() {
    // 2024 is a leap year: two days lie between feb 28 and mar 1
    let feb28 = ts(2024, 2, 28, 0, 0, 0).to_seconds();
    let mar1 = ts(2024, 3, 1, 0, 0, 0).to_seconds();
    assert_eq!(mar1 - feb28, 2 * 86400);
    // 2023 is not
    let feb28_23 = ts(2023, 2, 28, 0, 0, 0).to_seconds();
    let mar1_23 = ts(2023, 3, 1, 0, 0, 0).to_seconds();
    assert_eq!(mar1_23 - feb28_23, 86400);
}

#[test]
fn seconds_cross_year_boundary() {
    let last = ts(2023, 12, 31, 23, 59, 59).to_seconds();
    let first = ts(2024, 1, 1, 0, 0, 0).to_seconds();
    assert_eq!(first - last, 1);
}

#[test]
fn month_lengths_follow_the_calendar() {
    assert_eq!(month_length(2024, 2), 29);
    assert_eq!(month_length(2023, 2), 28);
    assert_eq!(month_length(1900, 2), 28); // century, not divisible by 400
    assert_eq!(month_length(2000, 2), 29); // divisible by 400
    assert_eq!(month_length(2024, 4), 30);
    assert_eq!(month_length(2024, 12), 31);
}
