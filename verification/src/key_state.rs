//! Per-key-code logical state: the last observed transition and its time.
//!
//! Timestamps are plain nanosecond counts measured from a fixed epoch, as
//! handed in by the caller that reads the hardware clock.

use vstd::prelude::*;

verus! {

/// The logical state of one key code: pressed or released, together with the
/// timestamp (nanoseconds since the epoch) of the transition that produced it.
#[derive(Debug, Clone, Copy, PartialEq, Eq, Structural)]
pub enum KeyState {
    Down(u64),
    Up(u64),
}

/// The event's timestamp precedes the timestamp already recorded for the key:
/// the elapsed time since the previous transition cannot be computed.
#[derive(Debug, Clone, Copy, PartialEq, Eq, Structural)]
pub struct ClockDriftError;

/// The timestamp carried by a state, whichever variant holds.
pub open spec fn state_time(s: KeyState) -> u64 {
    match s {
        KeyState::Down(ts) => ts,
        KeyState::Up(ts) => ts,
    }
}

impl Default for KeyState {
    /// A key starts out released, at the epoch.
    fn default() -> (s: Self)
        ensures
            s == (KeyState::Up(0u64)),
    {
        KeyState::Up(0)
    }
}

impl KeyState {
    /// The timestamp of the last observed transition of this key.
    pub fn time(&self) -> (t: u64)
        ensures
            t == state_time(*self),
    {
        match self {
            KeyState::Down(ts) => *ts,
            KeyState::Up(ts) => *ts,
        }
    }

    /// The time elapsed between the recorded transition and `now`, or an
    /// error when `now` precedes the recorded timestamp (clock drift).
    pub fn duration_since(&self, now: u64) -> (r: Result<u64, ClockDriftError>)
        ensures
            now >= state_time(*self) ==> r == Ok::<u64, ClockDriftError>(
                (now - state_time(*self)) as u64,
            ),
            now < state_time(*self) ==> r == Err::<u64, ClockDriftError>(ClockDriftError),
    {
        let t = self.time();
        if now >= t {
            Ok(now - t)
        } else {
            Err(ClockDriftError)
        }
    }
}

} // verus!
