use door_monitor::clock::now_timestamp;
use door_monitor::clock::timestamp_from_fields;
use door_monitor::sensor::poll_step;
use door_monitor::sensor::SensorEvent;
use door_monitor::timestamp::month_length;
use door_monitor::timestamp::Timestamp;

#[test]
fn active_poll_drives_indicator_and_emits_one_event() {
    let (indicator, event) = poll_step(true);
    assert!(indicator);
    assert_eq!(event, Some(SensorEvent::MotionDetected));
}

#[test]
fn inactive_poll_clears_indicator_and_emits_nothing() {
    let (indicator, event) = poll_step(false);
    assert!(!indicator);
    assert_eq!(event, None);
}

#[test]
fn clock_fields_validate_into_the_expected_instant() {
    let expected = Timestamp {
        year: 2024,
        month: 2,
        day: 29,
        hour: 23,
        minute: 59,
        second: 58,
    };
    assert_eq!(timestamp_from_fields(2024, 2, 29, 23, 59, 58), Some(expected));
}

#[test]
fn clock_fields_out_of_range_yield_no_instant() {
    // a pre-epoch or five-digit year cannot be carried by the convention
    assert_eq!(timestamp_from_fields(-1, 1, 1, 0, 0, 0), None);
    assert_eq!(timestamp_from_fields(10000, 1, 1, 0, 0, 0), None);
    // a day the month does not have
    assert_eq!(timestamp_from_fields(2023, 2, 29, 0, 0, 0), None);
    assert_eq!(timestamp_from_fields(2024, 4, 31, 0, 0, 0), None);
}

#[test]
fn clock_reading_is_a_real_instant() {
    let now = now_timestamp().expect("the platform clock is within range");
    assert!((1..=12).contains(&now.month));
    assert!(now.day >= 1 && now.day <= month_length(now.year, now.month));
    assert!(now.hour < 24);
    assert!(now.minute < 60);
    assert!(now.second < 60);
}
