use dechatter::key_state::{ClockDriftError, KeyState};

#[test]
fn default_is_released_at_epoch() {
    assert_eq!(KeyState::default(), KeyState::Up(0));
}

#[test]
fn time_reads_either_variant() {
    assert_eq!(KeyState::Down(42).time(), 42);
    assert_eq!(KeyState::Up(7).time(), 7);
}

#[test]
fn duration_since_measures_elapsed() {
    assert_eq!(KeyState::Down(100).duration_since(250), Ok(150));
    assert_eq!(KeyState::Up(100).duration_since(100), Ok(0));
}

#[test]
fn duration_since_reports_clock_drift() {
    assert_eq!(KeyState::Down(100).duration_since(99), Err(ClockDriftError));
}
