use dechatter::key_filter::{should_filter, Event, EventKind};
use dechatter::key_state::KeyState;

const DOWN: i32 = 1;
const UP: i32 = 0;

// A wall-clock style timestamp, far more than 10 ms past the epoch.
const NOW: u64 = 1_700_000_000_000_000_000;
const TEN_MS: u64 = 10_000_000;

fn prepare(value: i32) -> (Event, Vec<KeyState>, Vec<Option<u64>>) {
    let input_event = Event { kind: EventKind::Key, code: 1, value, timestamp: NOW };
    let tracker = vec![KeyState::default(), KeyState::default()];
    let key_timeouts: Vec<Option<u64>> = vec![Some(TEN_MS), Some(TEN_MS)];
    (input_event, tracker, key_timeouts)
}

#[test]
fn test_should_filter_up_up() {
    let (input_event, mut tracker, key_timeouts) = prepare(UP);
    assert!(
        should_filter(input_event, &key_timeouts, &mut tracker),
        "Should always filter up-up events"
    );
    assert_eq!(tracker[1].time(), 0, "Should NOT update the tracker");
    assert!(
        should_filter(input_event, &key_timeouts, &mut tracker),
        "Should filter the second down event"
    );
}

#[test]
fn test_should_filter_up_down() {
    let (input_event, mut tracker, key_timeouts) = prepare(DOWN);
    assert!(
        !should_filter(input_event, &key_timeouts, &mut tracker),
        "Should not filter the first down event"
    );
    assert_ne!(tracker[1].time(), 0, "Should update the tracker");
    assert!(
        should_filter(input_event, &key_timeouts, &mut tracker),
        "Should filter the second down event"
    );
}

#[test]
fn test_should_filter_down_down() {
    let (input_event, mut tracker, key_timeouts) = prepare(DOWN);
    tracker[1] = KeyState::Down(0);
    assert!(
        !should_filter(input_event, &key_timeouts, &mut tracker),
        "Should not filter the first down event"
    );
    assert_ne!(tracker[1].time(), 0, "Should update the tracker");
    assert!(
        should_filter(input_event, &key_timeouts, &mut tracker),
        "Should filter the second down event"
    );
}

#[test]
fn test_should_filter_down_up() {
    let (input_event, mut tracker, key_timeouts) = prepare(UP);
    tracker[1] = KeyState::Down(0);
    assert!(
        !should_filter(input_event, &key_timeouts, &mut tracker),
        "Should not filter the first down event"
    );
    assert_ne!(tracker[1].time(), 0, "Should update the tracker");
    assert!(
        should_filter(input_event, &key_timeouts, &mut tracker),
        "Should filter the second down event"
    );
}

#[test]
fn no_timeout_forwards_everything() {
    let key_timeouts: Vec<Option<u64>> = vec![None, None];
    let mut tracker = vec![KeyState::default(), KeyState::default()];
    // Two immediate repeats of the same press: without a timeout neither is
    // filtered, however close together they are.
    let e = Event { kind: EventKind::Key, code: 1, value: DOWN, timestamp: NOW };
    assert!(!should_filter(e, &key_timeouts, &mut tracker));
    assert!(!should_filter(e, &key_timeouts, &mut tracker));
    assert_eq!(tracker[1], KeyState::Up(0), "tracker is not consulted");
}

#[test]
fn code_beyond_table_forwards() {
    let key_timeouts: Vec<Option<u64>> = vec![Some(TEN_MS)];
    let mut tracker = vec![KeyState::default(), KeyState::default()];
    let e = Event { kind: EventKind::Key, code: 1, value: DOWN, timestamp: NOW };
    assert!(!should_filter(e, &key_timeouts, &mut tracker));
    assert!(!should_filter(e, &key_timeouts, &mut tracker));
    assert_eq!(tracker[1], KeyState::Up(0));
}

#[test]
fn non_key_event_forwards_and_keeps_state() {
    let (_, mut tracker, key_timeouts) = prepare(DOWN);
    let e = Event { kind: EventKind::Other, code: 1, value: DOWN, timestamp: NOW };
    assert!(!should_filter(e, &key_timeouts, &mut tracker));
    assert!(!should_filter(e, &key_timeouts, &mut tracker));
    assert_eq!(tracker[0], KeyState::Up(0));
    assert_eq!(tracker[1], KeyState::Up(0));
}

#[test]
fn clock_drift_forwards_and_keeps_state() {
    let key_timeouts: Vec<Option<u64>> = vec![Some(TEN_MS), Some(TEN_MS)];
    let mut tracker = vec![KeyState::default(), KeyState::Down(NOW)];
    let stale = Event { kind: EventKind::Key, code: 1, value: DOWN, timestamp: NOW - 1 };
    assert!(!should_filter(stale, &key_timeouts, &mut tracker));
    assert_eq!(tracker[1], KeyState::Down(NOW), "tracker left untouched");
}

#[test]
fn down_down_at_window_boundary_forwards_and_slides_anchor() {
    let key_timeouts: Vec<Option<u64>> = vec![Some(TEN_MS), Some(TEN_MS)];
    let mut tracker = vec![KeyState::default(), KeyState::Down(NOW)];
    let inside = Event { kind: EventKind::Key, code: 1, value: DOWN, timestamp: NOW + TEN_MS - 1 };
    assert!(should_filter(inside, &key_timeouts, &mut tracker));
    assert_eq!(tracker[1], KeyState::Down(NOW), "anchor kept on a drop");
    let boundary = Event { kind: EventKind::Key, code: 1, value: DOWN, timestamp: NOW + TEN_MS };
    assert!(!should_filter(boundary, &key_timeouts, &mut tracker));
    assert_eq!(tracker[1], KeyState::Down(NOW + TEN_MS), "anchor slides on a forward");
}

#[test]
fn up_down_chatter_reanchors_even_when_dropped() {
    let key_timeouts: Vec<Option<u64>> = vec![Some(TEN_MS), Some(TEN_MS)];
    let mut tracker = vec![KeyState::default(), KeyState::Up(NOW)];
    // A bounce 1 ms after the release: dropped, but the slot re-anchors.
    let bounce = Event { kind: EventKind::Key, code: 1, value: DOWN, timestamp: NOW + 1_000_000 };
    assert!(should_filter(bounce, &key_timeouts, &mut tracker));
    assert_eq!(tracker[1], KeyState::Down(NOW + 1_000_000), "state still becomes Down(now)");
    // A third press a full window after the *bounce* is forwarded: it is
    // measured against the new timestamp, not the old one.
    let third = Event {
        kind: EventKind::Key,
        code: 1,
        value: DOWN,
        timestamp: NOW + 1_000_000 + TEN_MS,
    };
    assert!(!should_filter(third, &key_timeouts, &mut tracker));
    // Whereas a press that is late relative to the old anchor but inside the
    // window of the new one is dropped.
    let mut tracker2 = vec![KeyState::default(), KeyState::Up(NOW)];
    assert!(should_filter(bounce, &key_timeouts, &mut tracker2));
    let relative_to_old = Event {
        kind: EventKind::Key,
        code: 1,
        value: DOWN,
        timestamp: NOW + TEN_MS,
    };
    assert!(should_filter(relative_to_old, &key_timeouts, &mut tracker2));
}

#[test]
fn down_up_always_forwards() {
    let key_timeouts: Vec<Option<u64>> = vec![Some(TEN_MS), Some(TEN_MS)];
    let mut tracker = vec![KeyState::default(), KeyState::Down(NOW)];
    // A release a single nanosecond after the press: still forwarded.
    let release = Event { kind: EventKind::Key, code: 1, value: UP, timestamp: NOW + 1 };
    assert!(!should_filter(release, &key_timeouts, &mut tracker));
    assert_eq!(tracker[1], KeyState::Up(NOW + 1));
}

#[test]
fn up_up_dropped_regardless_of_elapsed() {
    let key_timeouts: Vec<Option<u64>> = vec![Some(TEN_MS), Some(TEN_MS)];
    let mut tracker = vec![KeyState::default(), KeyState::Up(NOW)];
    // Far beyond any window: the elapsed time has no bearing on up-up.
    let late = Event { kind: EventKind::Key, code: 1, value: UP, timestamp: NOW + 1_000 * TEN_MS };
    assert!(should_filter(late, &key_timeouts, &mut tracker));
    assert_eq!(tracker[1], KeyState::Up(NOW), "slot untouched");
}
