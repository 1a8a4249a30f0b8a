use door_monitor::frame_store::FrameStore;
use door_monitor::timestamp::Timestamp;

fn ts(second: u8) -> Timestamp {
    Timestamp { year: 2024, month: 1, day: 1, hour: 10, minute: 0, second }
}

fn store_with_seconds(seconds: &[u8]) -> FrameStore {
    let mut s = FrameStore::new();
    for &sec in seconds {
        s.record_capture(ts(sec));
    }
    s
}

fn registered_seconds(s: &FrameStore) -> Vec<u8> {
    let mut out = Vec::new();
    for i in 0..s.len() {
        out.push(s.frame_at(i).second);
    }
    out
}

#[test]
fn clean_deletes_frames_older_than_the_horizon() {
    // horizon 5, now 10:00:10: ages run 10 down to 1; stale means age > 5,
    // so the frames of seconds 0 to 4 go and 5 to 9 stay
    let mut s = store_with_seconds(&[0, 1, 2, 3, 4, 5, 6, 7, 8, 9]);
    let now = ts(10);
    let removed = s.clean_old_photos(5, now);
    assert_eq!(registered_seconds(&s), vec![5, 6, 7, 8, 9]);
    assert_eq!(removed.len(), 5);
    assert_eq!(removed[0], b"door-20240101-10:00:00.jpg".to_vec());
    assert_eq!(removed[4], b"door-20240101-10:00:04.jpg".to_vec());
}

#[test]
fn clean_keeps_the_frame_exactly_at_the_horizon() {
    // age 5 does not exceed a horizon of 5
    let mut s = store_with_seconds(&[5]);
    let removed = s.clean_old_photos(5, ts(10));
    assert_eq!(s.len(), 1);
    assert!(removed.is_empty());
}

#[test]
fn clean_of_fresh_frames_deletes_nothing() {
    let mut s = store_with_seconds(&[8, 9]);
    let removed = s.clean_old_photos(5, ts(10));
    assert_eq!(registered_seconds(&s), vec![8, 9]);
    assert!(removed.is_empty());
}

#[test]
fn record_capture_orders_and_names_frames() {
    let mut s = FrameStore::new();
    let name = s.record_capture(ts(7));
    assert_eq!(name, b"door-20240101-10:00:07.jpg".to_vec());
    s.record_capture(ts(3));
    s.record_capture(ts(5));
    assert_eq!(registered_seconds(&s), vec![3, 5, 7]);
}

#[test]
fn record_capture_replaces_a_same_second_frame() {
    let mut s = FrameStore::new();
    s.record_capture(ts(3));
    s.record_capture(ts(3));
    assert_eq!(registered_seconds(&s), vec![3]);
}

#[test]
fn from_names_keeps_only_convention_matches() {
    let names: Vec<Vec<u8>> = vec![
        b"door-20240101-10:00:03.jpg".to_vec(),
        b"notes.txt".to_vec(),
        b"door-20240101-10:00:01.jpg".to_vec(),
        b"door-20241301-10:00:01.jpg".to_vec(), // month 13: no frame
    ];
    let s = FrameStore::from_names(&names);
    assert_eq!(registered_seconds(&s), vec![1, 3]);
}
