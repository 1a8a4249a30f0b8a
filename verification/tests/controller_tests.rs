use door_monitor::controller::Controller;
use door_monitor::controller::States;
use door_monitor::controller::TickAction;
use door_monitor::frame_store::FrameStore;
use door_monitor::persistence::apply_store_results;
use door_monitor::persistence::build_persistence_plan;
use door_monitor::sensor::SensorEvent;
use door_monitor::timestamp::Timestamp;

fn ts(second: u8) -> Timestamp {
    Timestamp { year: 2024, month: 1, day: 1, hour: 10, minute: 0, second }
}

fn ts_at(hour: u8, minute: u8, second: u8) -> Timestamp {
    Timestamp { year: 2024, month: 1, day: 1, hour, minute, second }
}

#[test]
fn burst_scenario_stores_ten_frames_under_numbered_keys() {
    // ten frames of seconds 0 to 9 exist; burst length 10; recording
    // begins on the first of those ticks and the 11th tick persists
    let mut c = Controller::new(10, 5);
    let mut store = FrameStore::new();
    let mut queue = vec![SensorEvent::MotionDetected];

    for sec in 0..10u8 {
        store.record_capture(ts(sec));
        let action = c.tick(&mut queue, &mut store, ts(sec));
        if sec == 0 {
            assert!(matches!(action, TickAction::MotionObserved));
            assert_eq!(c.state, States::RECORDING);
        } else {
            assert!(matches!(action, TickAction::BurstTick));
        }
    }
    assert_eq!(c.state, States::STORING);

    // the 11th tick: this tick's capture failed (none recorded), so the
    // pass sweeps exactly the ten frames
    let now = ts(10);
    let action = c.tick(&mut queue, &mut store, now);
    assert!(matches!(action, TickAction::PersistBurst));
    assert_eq!(c.state, States::MONITORING);

    let plan = build_persistence_plan(&store, &now);
    assert_eq!(plan.len(), 10);
    assert_eq!(plan[0].local_name, b"door-20240101-10:00:00.jpg".to_vec());
    assert_eq!(plan[0].dest, b"20240101_10:00:10/detection_01".to_vec());
    assert_eq!(plan[9].local_name, b"door-20240101-10:00:09.jpg".to_vec());
    assert_eq!(plan[9].dest, b"20240101_10:00:10/detection_10".to_vec());

    // every store call succeeded: all ten local frames are removed
    let results = vec![true; 10];
    apply_store_results(&mut store, &results);
    assert_eq!(store.len(), 0);
}

#[test]
fn fifty_duplicate_detections_start_one_burst() {
    // the sensor loop emitted a detection on 50 consecutive polls; the
    // controller still enters recording exactly once for that burst
    let mut c = Controller::new(10, 5);
    let mut store = FrameStore::new();
    let mut queue = vec![SensorEvent::MotionDetected; 50];

    let mut recordings_started = 0;
    for k in 0..12u8 {
        let action = c.tick(&mut queue, &mut store, ts(k));
        if matches!(action, TickAction::MotionObserved) {
            recordings_started += 1;
        }
    }
    assert_eq!(recordings_started, 1);
    // the storing tick drained the 49 queued duplicates
    assert!(queue.is_empty());
    assert_eq!(c.state, States::MONITORING);
}

#[test]
fn monitoring_without_event_runs_retention() {
    let mut c = Controller::new(10, 5);
    let mut store = FrameStore::new();
    store.record_capture(ts_at(9, 59, 0)); // age 70 at 10:00:10: stale
    store.record_capture(ts(8)); // age 2: fresh
    let mut queue: Vec<SensorEvent> = Vec::new();

    let action = c.tick(&mut queue, &mut store, ts(10));
    match action {
        TickAction::Cleaned(removed) => {
            assert_eq!(removed, vec![b"door-20240101-09:59:00.jpg".to_vec()]);
        }
        _ => panic!("a monitoring tick without an event must clean"),
    }
    assert_eq!(c.state, States::MONITORING);
    assert_eq!(store.len(), 1);
}

#[test]
fn event_tick_skips_retention() {
    let mut c = Controller::new(10, 5);
    let mut store = FrameStore::new();
    store.record_capture(ts_at(9, 0, 0)); // very stale, but must survive
    let mut queue = vec![SensorEvent::MotionDetected];

    let action = c.tick(&mut queue, &mut store, ts(10));
    assert!(matches!(action, TickAction::MotionObserved));
    assert_eq!(store.len(), 1);
    assert!(queue.is_empty());
}

#[test]
fn burst_ends_exactly_at_the_burst_length() {
    let mut c = Controller::new(3, 5);
    let mut store = FrameStore::new();
    let mut queue = vec![SensorEvent::MotionDetected];

    c.tick(&mut queue, &mut store, ts(0)); // counter 1, recording
    assert_eq!(c.state, States::RECORDING);
    // events arriving during recording change nothing
    queue.push(SensorEvent::MotionDetected);
    c.tick(&mut queue, &mut store, ts(1)); // counter 2: not yet
    assert_eq!(c.state, States::RECORDING);
    assert_eq!(queue.len(), 1);
    c.tick(&mut queue, &mut store, ts(2)); // counter 3 == burst length
    assert_eq!(c.state, States::STORING);
}

#[test]
fn storing_tick_drains_the_queue_and_resumes_monitoring() {
    let mut c = Controller::new(2, 5);
    let mut store = FrameStore::new();
    let mut queue = vec![SensorEvent::MotionDetected];

    c.tick(&mut queue, &mut store, ts(0)); // observed: recording, tick one
    assert_eq!(c.state, States::RECORDING);
    c.tick(&mut queue, &mut store, ts(1)); // tick two of two: burst over
    assert_eq!(c.state, States::STORING);

    queue.push(SensorEvent::MotionDetected);
    queue.push(SensorEvent::MotionDetected);
    let action = c.tick(&mut queue, &mut store, ts(2));
    assert!(matches!(action, TickAction::PersistBurst));
    assert!(queue.is_empty());
    assert_eq!(c.state, States::MONITORING);
    assert_eq!(c.tick_counter, 0);

    // the next tick sees no backlog: it cleans instead of recording
    let action = c.tick(&mut queue, &mut store, ts(3));
    assert!(matches!(action, TickAction::Cleaned(_)));
    assert_eq!(c.state, States::MONITORING);
}

#[test]
fn failed_stores_leave_frames_for_the_next_pass() {
    let mut store = FrameStore::new();
    store.record_capture(ts(0));
    store.record_capture(ts(1));
    store.record_capture(ts(2));

    // the middle upload failed
    let results = vec![true, false, true];
    apply_store_results(&mut store, &results);
    assert_eq!(store.len(), 1);
    let survivor = store.frame_at(0);
    assert_eq!(survivor, ts(1));
    // the survivor still matches the naming convention, so the next pass
    // sweeps it up again
    let name = door_monitor::names::frame_name(&survivor);
    assert_eq!(door_monitor::names::parse_frame_name(&name), Some(survivor));
}

#[test]
fn states_have_display_labels() {
    assert_eq!(States::MONITORING.label(), "Monitoring");
    assert_eq!(States::RECORDING.label(), "Recording");
    assert_eq!(States::STORING.label(), "Storing");
}
