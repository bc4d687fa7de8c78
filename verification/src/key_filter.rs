//! The debounce decision engine.
//!
//! For each incoming event the engine decides, from the per-key timeout table
//! and the per-key state tracker, whether the event is forwarded or dropped,
//! and updates the tracker. The transition table, per key code:
//!
//! | current | incoming | decision | new state |
//! |---------|----------|----------|-----------|
//! | Down    | down     | drop if `elapsed < timeout`, else forward | unchanged on drop, `Down(now)` on forward |
//! | Down    | up       | forward always | `Up(now)` |
//! | Up      | down     | drop if `elapsed < timeout`, else forward | `Down(now)` either way |
//! | Up      | up       | drop always | unchanged |
//!
//! Non-key events, key codes outside the table or without a timeout, and
//! events whose timestamp precedes the recorded one (clock drift) are always
//! forwarded and leave the tracker untouched.

use vstd::prelude::*;

use crate::cmd::KeyRangeTimeout;
use crate::key_state::{state_time, KeyState};

verus! {

/// How often, at most, a statistics summary is emitted.
pub const STATS_INTERVAL_NANOS: u64 = 30_000_000_000;

/// The semantic category of an observed event: a key transition, or anything
/// else (synchronization reports, relative axes, ...).
#[derive(Debug, Clone, Copy, PartialEq, Eq, Structural)]
pub enum EventKind {
    Key,
    Other,
}

/// An immutable externally sourced input event. `value >= 1` means the key
/// went (or is held) down, `value == 0` means it went up; `timestamp` is in
/// nanoseconds since the epoch the caller measures from.
#[derive(Debug, Clone, Copy, PartialEq, Eq, Structural)]
pub struct Event {
    pub kind: EventKind,
    pub code: u16,
    pub value: i32,
    pub timestamp: u64,
}

/// An event value of 1 or more is a press (hardware auto-repeat reports 2).
pub open spec fn spec_is_down(value: i32) -> bool {
    value >= 1
}

/// Whether the transition table drops the event, given the current state of
/// its key, that key's timeout, the edge direction, and the time elapsed
/// since the recorded transition.
pub open spec fn step_filters(state: KeyState, timeout: u64, is_down: bool, elapsed: u64) -> bool {
    match state {
        KeyState::Down(_) => is_down && elapsed < timeout,
        KeyState::Up(_) => if is_down {
            elapsed < timeout
        } else {
            true
        },
    }
}

/// The state the key moves to. A filtered down-down repeat keeps its anchor
/// (so a chattering burst is measured from the first bounce), a forwarded one
/// slides it to `now`; an up-down edge always re-anchors at `now`; a release
/// always records `Up(now)`; an up-up repeat leaves the slot untouched.
pub open spec fn step_state(state: KeyState, timeout: u64, is_down: bool, now: u64, elapsed: u64) -> KeyState {
    match state {
        KeyState::Down(_) => if is_down {
            if elapsed < timeout {
                state
            } else {
                KeyState::Down(now)
            }
        } else {
            KeyState::Up(now)
        },
        KeyState::Up(_) => if is_down {
            KeyState::Down(now)
        } else {
            state
        },
    }
}

/// A key event whose code has an assigned timeout: the only events the
/// transition table is consulted for.
pub open spec fn event_throttleable(e: Event, timeouts: Seq<Option<u64>>) -> bool {
    &&& e.kind is Key
    &&& (e.code as int) < timeouts.len()
    &&& timeouts[e.code as int] is Some
}

/// Whether the engine drops `e`, given the timeout table and the tracker.
pub open spec fn event_filtered(e: Event, timeouts: Seq<Option<u64>>, tracker: Seq<KeyState>) -> bool
    recommends
        timeouts.len() <= tracker.len(),
{
    &&& event_throttleable(e, timeouts)
    &&& e.timestamp >= state_time(tracker[e.code as int])
    &&& step_filters(
        tracker[e.code as int],
        timeouts[e.code as int]->0,
        spec_is_down(e.value),
        (e.timestamp - state_time(tracker[e.code as int])) as u64,
    )
}

/// The tracker after the engine has processed `e`: only the slot of a
/// throttleable key whose elapsed time is computable can change, and it
/// changes by the transition table.
pub open spec fn tracker_after(e: Event, timeouts: Seq<Option<u64>>, tracker: Seq<KeyState>) -> Seq<KeyState>
    recommends
        timeouts.len() <= tracker.len(),
{
    if event_throttleable(e, timeouts) && e.timestamp >= state_time(tracker[e.code as int]) {
        tracker.update(
            e.code as int,
            step_state(
                tracker[e.code as int],
                timeouts[e.code as int]->0,
                spec_is_down(e.value),
                e.timestamp,
                (e.timestamp - state_time(tracker[e.code as int])) as u64,
            ),
        )
    } else {
        tracker
    }
}

/// Decides whether `orig_event` must be dropped, and moves the state of its
/// key code. Non-key events, key codes with no assigned timeout, and events
/// older than the recorded state (clock drift) are forwarded untouched.
pub fn should_filter(orig_event: Event, key_timeouts: &Vec<Option<u64>>, tracker: &mut Vec<KeyState>) -> (filtered: bool)
    requires
        key_timeouts@.len() <= old(tracker)@.len(),
    ensures
        filtered == event_filtered(orig_event, key_timeouts@, old(tracker)@),
        final(tracker)@ == tracker_after(orig_event, key_timeouts@, old(tracker)@),
{
    match orig_event.kind {
        EventKind::Key => {}
        EventKind::Other => {
            return false;
        }
    }
    let index = orig_event.code as usize;
    if index >= key_timeouts.len() {
        return false;
    }
    let max_duration = match key_timeouts[index] {
        Some(d) => d,
        None => {
            return false;
        }
    };

    let now = orig_event.timestamp;
    let since_previous = match tracker[index].duration_since(now) {
        Ok(value) => value,
        Err(_) => {
            return false;
        }
    };

    let is_key_down = orig_event.value >= 1;

    match tracker[index] {
        KeyState::Down(_) => {
            if is_key_down {
                if since_previous < max_duration {
                    return true;
                }
                tracker[index] = KeyState::Down(now);
                false
            } else {
                tracker[index] = KeyState::Up(now);
                false
            }
        }
        KeyState::Up(_) => {
            if is_key_down {
                tracker[index] = KeyState::Down(now);
                since_previous < max_duration
            } else {
                true
            }
        }
    }
}

/// Whether the range assigns a timeout to `code`.
pub open spec fn range_covers(r: KeyRangeTimeout, code: int) -> bool {
    r.start <= code <= r.end
}

/// The debounce window of a range, in nanoseconds.
pub open spec fn timeout_nanos(r: KeyRangeTimeout) -> u64 {
    (r.timeout_ms * 1_000_000) as u64
}

/// The timeout the table assigns to `code`: that of the first configured
/// range holding the code — the first writer wins — or none.
pub open spec fn assigned_timeout(ranges: Seq<KeyRangeTimeout>, code: int) -> Option<u64>
    decreases ranges.len(),
{
    if ranges.len() == 0 {
        None
    } else if range_covers(ranges[0], code) {
        Some(timeout_nanos(ranges[0]))
    } else {
        assigned_timeout(ranges.drop_first(), code)
    }
}

/// The highest key code any configured range mentions; zero when none does.
pub open spec fn max_requested_code(ranges: Seq<KeyRangeTimeout>) -> int
    decreases ranges.len(),
{
    if ranges.len() == 0 {
        0
    } else {
        let rest = max_requested_code(ranges.drop_last());
        if ranges.last().end >= rest {
            ranges.last().end as int
        } else {
            rest
        }
    }
}

/// The table covers the key codes both the device and the configuration can
/// reach: one entry per code up to the smaller of the two maxima.
pub open spec fn required_table_size(ranges: Seq<KeyRangeTimeout>, max_keyboard_code: int) -> int {
    (if max_keyboard_code < max_requested_code(ranges) {
        max_keyboard_code
    } else {
        max_requested_code(ranges)
    }) + 1
}

/// The highest key code any of `timeouts` mentions.
fn max_requested_exec(timeouts: &Vec<KeyRangeTimeout>) -> (m: u16)
    ensures
        m == max_requested_code(timeouts@),
{
    let mut m: u16 = 0;
    let mut i: usize = 0;
    while i < timeouts.len()
        invariant
            0 <= i <= timeouts@.len(),
            m == max_requested_code(timeouts@.take(i as int)),
        decreases timeouts@.len() - i,
    {
        proof {
            assert(timeouts@.take(i + 1).drop_last() =~= timeouts@.take(i as int));
            assert(timeouts@.take(i + 1).last() == timeouts@[i as int]);
        }
        if timeouts[i].end > m {
            m = timeouts[i].end;
        }
        i = i + 1;
    }
    proof {
        assert(timeouts@.take(i as int) =~= timeouts@);
    }
    m
}

/// The timeout assigned to `code`: the first configured range holding the
/// code wins; a later range's assignment for an already-set code is ignored.
fn timeout_for_code(timeouts: &Vec<KeyRangeTimeout>, code: u16) -> (t: Option<u64>)
    ensures
        t == assigned_timeout(timeouts@, code as int),
{
    let mut i: usize = 0;
    proof {
        assert(timeouts@.skip(0) =~= timeouts@);
    }
    while i < timeouts.len()
        invariant
            0 <= i <= timeouts@.len(),
            assigned_timeout(timeouts@, code as int) == assigned_timeout(
                timeouts@.skip(i as int),
                code as int,
            ),
        decreases timeouts@.len() - i,
    {
        proof {
            assert(timeouts@.skip(i as int).drop_first() =~= timeouts@.skip(i + 1));
            assert(timeouts@.skip(i as int)[0] == timeouts@[i as int]);
        }
        let r = timeouts[i];
        if r.start <= code && code <= r.end {
            return Some((r.timeout_ms as u64) * 1_000_000);
        }
        i = i + 1;
    }
    None
}

/// The per-key drop counter after one more drop of `code`, saturating.
pub open spec fn bump_stat(stats: Seq<usize>, code: int) -> Seq<usize>
    recommends
        0 <= code < stats.len(),
{
    stats.update(
        code,
        if stats[code] == usize::MAX {
            usize::MAX
        } else {
            (stats[code] + 1) as usize
        },
    )
}

/// One pass of a batch through the engine: the events that survive, in their
/// original order, with the tracker and the drop counters it leaves behind.
pub open spec fn run_batch(
    batch: Seq<Event>,
    timeouts: Seq<Option<u64>>,
    tracker: Seq<KeyState>,
    stats: Seq<usize>,
) -> (Seq<Event>, Seq<KeyState>, Seq<usize>)
    decreases batch.len(),
{
    if batch.len() == 0 {
        (Seq::<Event>::empty(), tracker, stats)
    } else {
        let e = batch[0];
        let filtered = event_filtered(e, timeouts, tracker);
        let t1 = tracker_after(e, timeouts, tracker);
        let s1 = if filtered {
            bump_stat(stats, e.code as int)
        } else {
            stats
        };
        let rest = run_batch(batch.drop_first(), timeouts, t1, s1);
        if filtered {
            rest
        } else {
            (seq![e] + rest.0, rest.1, rest.2)
        }
    }
}

/// The nonzero drop counters, as `(key code, count)` pairs in code order.
pub open spec fn nonzero_entries(stats: Seq<usize>) -> Seq<(usize, usize)>
    decreases stats.len(),
{
    if stats.len() == 0 {
        Seq::<(usize, usize)>::empty()
    } else {
        nonzero_entries(stats.drop_last()) + (if stats.last() > 0 {
            seq![(((stats.len() - 1) as usize), stats.last())]
        } else {
            Seq::<(usize, usize)>::empty()
        })
    }
}

/// The debounce engine: the per-key timeout table, the per-key state
/// tracker, and the per-key saturating drop counters, all of one length.
pub struct KeyFilter {
    pub key_timeouts: Vec<Option<u64>>,
    pub tracker: Vec<KeyState>,
    pub stats: Vec<usize>,
}

impl KeyFilter {
    /// The three tables cover the same key codes.
    pub open spec fn wf(&self) -> bool {
        &&& self.tracker@.len() == self.key_timeouts@.len()
        &&& self.stats@.len() == self.key_timeouts@.len()
    }

    /// Builds the engine for a device whose highest supported key code is
    /// `max_keyboard_code`. Codes beyond the table's reach are simply not
    /// debounced; where ranges overlap, the first configured one wins.
    pub fn new(timeouts: &Vec<KeyRangeTimeout>, max_keyboard_code: usize) -> (filter: Self)
        ensures
            filter.wf(),
            filter.key_timeouts@.len() == required_table_size(timeouts@, max_keyboard_code as int),
            forall|c: int|
                0 <= c < filter.key_timeouts@.len() ==> filter.key_timeouts@[c]
                    == assigned_timeout(timeouts@, c),
            forall|c: int|
                0 <= c < filter.tracker@.len() ==> filter.tracker@[c] == KeyState::Up(0u64),
            forall|c: int| 0 <= c < filter.stats@.len() ==> filter.stats@[c] == 0usize,
    {
        let max_requested = max_requested_exec(timeouts);
        let required_size: usize = if (max_requested as usize) < max_keyboard_code {
            max_requested as usize + 1
        } else {
            max_keyboard_code + 1
        };
        let mut key_timeouts: Vec<Option<u64>> = Vec::new();
        let mut tracker: Vec<KeyState> = Vec::new();
        let mut stats: Vec<usize> = Vec::new();
        let mut c: usize = 0;
        while c < required_size
            invariant
                0 <= c <= required_size,
                required_size <= 65536,
                key_timeouts@.len() == c,
                tracker@.len() == c,
                stats@.len() == c,
                forall|k: int|
                    0 <= k < c ==> key_timeouts@[k] == assigned_timeout(timeouts@, k),
                forall|k: int| 0 <= k < c ==> tracker@[k] == KeyState::Up(0u64),
                forall|k: int| 0 <= k < c ==> stats@[k] == 0usize,
            decreases required_size - c,
        {
            key_timeouts.push(timeout_for_code(timeouts, c as u16));
            tracker.push(KeyState::Up(0));
            stats.push(0);
            c = c + 1;
        }
        KeyFilter { key_timeouts, tracker, stats }
    }

    /// Runs one batch through the engine in order: survivors are returned in
    /// the order received, each drop bumps its key's counter, and the tracker
    /// moves as the transition table dictates, event by event.
    pub fn process_event_batch(&mut self, batch: &Vec<Event>) -> (survivors: Vec<Event>)
        requires
            old(self).wf(),
        ensures
            final(self).wf(),
            final(self).key_timeouts == old(self).key_timeouts,
            (survivors@, final(self).tracker@, final(self).stats@) == run_batch(
                batch@,
                old(self).key_timeouts@,
                old(self).tracker@,
                old(self).stats@,
            ),
    {
        let ghost full = run_batch(batch@, self.key_timeouts@, self.tracker@, self.stats@);
        let mut survivors: Vec<Event> = Vec::new();
        let mut i: usize = 0;
        proof {
            assert(batch@.skip(0) =~= batch@);
            assert(Seq::<Event>::empty() + full.0 =~= full.0);
        }
        while i < batch.len()
            invariant
                0 <= i <= batch@.len(),
                self.wf(),
                self.key_timeouts == old(self).key_timeouts,
                full == run_batch(batch@, old(self).key_timeouts@, old(self).tracker@, old(self).stats@),
                full.0 == survivors@ + run_batch(
                    batch@.skip(i as int),
                    self.key_timeouts@,
                    self.tracker@,
                    self.stats@,
                ).0,
                full.1 == run_batch(
                    batch@.skip(i as int),
                    self.key_timeouts@,
                    self.tracker@,
                    self.stats@,
                ).1,
                full.2 == run_batch(
                    batch@.skip(i as int),
                    self.key_timeouts@,
                    self.tracker@,
                    self.stats@,
                ).2,
            decreases batch@.len() - i,
        {
            proof {
                assert(batch@.skip(i as int).drop_first() =~= batch@.skip(i + 1));
                assert(batch@.skip(i as int)[0] == batch@[i as int]);
            }
            let orig_event = batch[i];
            if should_filter(orig_event, &self.key_timeouts, &mut self.tracker) {
                let index = orig_event.code as usize;
                let bumped = self.stats[index].saturating_add(1);
                self.stats[index] = bumped;
            } else {
                survivors.push(orig_event);
            }
            i = i + 1;
        }
        proof {
            assert(batch@.skip(i as int) =~= Seq::<Event>::empty());
            assert(full.0 =~= survivors@);
        }
        survivors
    }

    /// The nonzero drop counters, one `(key code, count)` pair per throttled
    /// key, in ascending code order, for a diagnostic summary.
    pub fn stats_entries(&self) -> (entries: Vec<(usize, usize)>)
        ensures
            entries@ == nonzero_entries(self.stats@),
    {
        let mut entries: Vec<(usize, usize)> = Vec::new();
        let mut i: usize = 0;
        while i < self.stats.len()
            invariant
                0 <= i <= self.stats@.len(),
                entries@ == nonzero_entries(self.stats@.take(i as int)),
            decreases self.stats@.len() - i,
        {
            proof {
                assert(self.stats@.take(i + 1).drop_last() =~= self.stats@.take(i as int));
                assert(self.stats@.take(i + 1).last() == self.stats@[i as int]);
            }
            let count = self.stats[i];
            if count > 0 {
                entries.push((i, count));
                proof {
                    assert(entries@ =~= nonzero_entries(self.stats@.take(i + 1)));
                }
            }
            i = i + 1;
        }
        proof {
            assert(self.stats@.take(i as int) =~= self.stats@);
        }
        entries
    }
}

/// Whether enough time has passed since the last summary for a new one.
pub fn stats_report_due(elapsed_nanos: u64) -> (due: bool)
    ensures
        due == (elapsed_nanos >= STATS_INTERVAL_NANOS),
{
    elapsed_nanos >= STATS_INTERVAL_NANOS
}

/// Law: a key code with no assigned timeout (or one outside the table) is
/// never filtered and its tracker slot never moves, whatever the timing.
pub proof fn lemma_no_timeout_forwards(e: Event, timeouts: Seq<Option<u64>>, tracker: Seq<KeyState>)
    requires
        timeouts.len() <= tracker.len(),
        e.code as int >= timeouts.len() || timeouts[e.code as int] is None,
    ensures
        !event_filtered(e, timeouts, tracker),
        tracker_after(e, timeouts, tracker) == tracker,
{
}

/// Law: with the key held down and a timeout `d` assigned, a further down
/// event within `d` of the anchor is dropped and the anchor stays; one at or
/// beyond `d` is forwarded and the anchor slides to the event's time.
pub proof fn lemma_down_down(e: Event, timeouts: Seq<Option<u64>>, tracker: Seq<KeyState>, ts: u64, d: u64)
    requires
        timeouts.len() <= tracker.len(),
        e.kind is Key,
        (e.code as int) < timeouts.len(),
        timeouts[e.code as int] == Some(d),
        tracker[e.code as int] == KeyState::Down(ts),
        spec_is_down(e.value),
        e.timestamp >= ts,
    ensures
        event_filtered(e, timeouts, tracker) <==> e.timestamp - ts < d,
        e.timestamp - ts < d ==> tracker_after(e, timeouts, tracker) == tracker,
        e.timestamp - ts >= d ==> tracker_after(e, timeouts, tracker) == tracker.update(
            e.code as int,
            KeyState::Down(e.timestamp),
        ),
{
}

/// Law: an up-to-down transition within the window is dropped, yet the slot
/// still re-anchors at the event's time either way, so the next event of the
/// key is measured against the new timestamp, not the old one.
pub proof fn lemma_up_down_reanchors(e: Event, timeouts: Seq<Option<u64>>, tracker: Seq<KeyState>, ts: u64, d: u64)
    requires
        timeouts.len() <= tracker.len(),
        e.kind is Key,
        (e.code as int) < timeouts.len(),
        timeouts[e.code as int] == Some(d),
        tracker[e.code as int] == KeyState::Up(ts),
        spec_is_down(e.value),
        e.timestamp >= ts,
    ensures
        event_filtered(e, timeouts, tracker) <==> e.timestamp - ts < d,
        tracker_after(e, timeouts, tracker) == tracker.update(
            e.code as int,
            KeyState::Down(e.timestamp),
        ),
{
}

/// Law: a release of a held key is always forwarded, whatever the elapsed
/// time; when the elapsed time is computable the slot records the release.
pub proof fn lemma_down_up_forwarded(e: Event, timeouts: Seq<Option<u64>>, tracker: Seq<KeyState>)
    requires
        timeouts.len() <= tracker.len(),
        (e.code as int) < tracker.len(),
        tracker[e.code as int] is Down,
        !spec_is_down(e.value),
    ensures
        !event_filtered(e, timeouts, tracker),
        e.timestamp >= state_time(tracker[e.code as int]) && event_throttleable(e, timeouts)
            ==> tracker_after(e, timeouts, tracker) == tracker.update(
            e.code as int,
            KeyState::Up(e.timestamp),
        ),
        e.timestamp < state_time(tracker[e.code as int]) || !event_throttleable(e, timeouts)
            ==> tracker_after(e, timeouts, tracker) == tracker,
{
}

/// Law: a repeated release (an up event while the key is already up) is
/// always dropped and the slot left untouched; the elapsed time, however
/// large, has no bearing on the decision.
pub proof fn lemma_up_up_dropped(e: Event, timeouts: Seq<Option<u64>>, tracker: Seq<KeyState>)
    requires
        timeouts.len() <= tracker.len(),
        event_throttleable(e, timeouts),
        tracker[e.code as int] is Up,
        !spec_is_down(e.value),
        e.timestamp >= state_time(tracker[e.code as int]),
    ensures
        event_filtered(e, timeouts, tracker),
        tracker_after(e, timeouts, tracker) == tracker,
{
}

/// Law: a non-key event is always forwarded and never mutates any slot.
pub proof fn lemma_non_key_forwarded(e: Event, timeouts: Seq<Option<u64>>, tracker: Seq<KeyState>)
    requires
        e.kind is Other,
    ensures
        !event_filtered(e, timeouts, tracker),
        tracker_after(e, timeouts, tracker) == tracker,
{
}

/// Law: one configured range `1..=2` with a 3 ms window, against a device
/// whose highest key code is at least 2, yields a table of exactly three
/// entries, in which codes 1 and 2 carry the window and every other code
/// carries none.
pub proof fn lemma_single_range_round_trip(ranges: Seq<KeyRangeTimeout>, max_keyboard_code: int, c: int)
    requires
        ranges == seq![KeyRangeTimeout { start: 1, end: 2, timeout_ms: 3 }],
        max_keyboard_code >= 2,
    ensures
        required_table_size(ranges, max_keyboard_code) == 3,
        assigned_timeout(ranges, c) == if 1 <= c <= 2 {
            Some(3_000_000u64)
        } else {
            None::<u64>
        },
{
    assert(ranges.drop_last() =~= Seq::<KeyRangeTimeout>::empty());
    assert(ranges.drop_first() =~= Seq::<KeyRangeTimeout>::empty());
    assert(max_requested_code(ranges.drop_last()) == 0);
    assert(assigned_timeout(ranges.drop_first(), c) == None::<u64>);
}

/// Law: an event whose timestamp precedes the recorded transition of its key
/// (clock drift) is forwarded and the tracker is left exactly as it was.
pub proof fn lemma_clock_drift_forwarded(e: Event, timeouts: Seq<Option<u64>>, tracker: Seq<KeyState>)
    requires
        timeouts.len() <= tracker.len(),
        (e.code as int) < tracker.len(),
        e.timestamp < state_time(tracker[e.code as int]),
    ensures
        !event_filtered(e, timeouts, tracker),
        tracker_after(e, timeouts, tracker) == tracker,
{
}

} // verus!
