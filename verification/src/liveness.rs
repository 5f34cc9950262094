//! The liveness monitor: a small probe on each connection, at a fixed
//! interval.
//!
//! The monitor sends a nonce and expects the same nonce back within a
//! bound. A round trip gives a latency measurement, a missed deadline a
//! failure. Both are telemetry: a failure alone never closes a connection.

use vstd::prelude::*;

verus! {

/// The time between the end of one probe and the start of the next, in
/// milliseconds.
pub const PROBE_INTERVAL_MS: u64 = 15_000;

/// The longest wait for the echo of a probe, in milliseconds.
pub const PROBE_TIMEOUT_MS: u64 = 20_000;

/// Where the monitor stands.
#[derive(Debug, Clone, Copy, PartialEq, Eq, Structural)]
pub enum ProbeState {
    /// No probe is under way. The next one is due at this time.
    Resting { next_probe_at: u64 },
    /// A probe with this nonce was sent at this time.
    Awaiting { nonce: u64, sent_at: u64 },
}

/// What the monitor found.
#[derive(Debug, Clone, Copy, PartialEq, Eq, Structural)]
pub enum LivenessEvent {
    /// Send a probe with this nonce.
    SendProbe(u64),
    /// The echo came back after this many milliseconds.
    RoundTrip(u64),
    /// The echo did not come back in time.
    Failure,
}

/// The monitor of one connection as a value: its state and the number of
/// failures in a row.
#[derive(Debug, Clone, Copy, PartialEq, Eq, Structural)]
pub struct LivenessMonitor {
    pub state: ProbeState,
    pub failures_in_a_row: u32,
}

/// `time` moved on by `by`, held at the largest time there is.
pub open spec fn later(time: u64, by: u64) -> u64 {
    if time + by > u64::MAX {
        u64::MAX
    } else {
        (time + by) as u64
    }
}

/// A count one higher, held at the largest count there is.
pub open spec fn one_more(count: u32) -> u32 {
    if count == u32::MAX {
        count
    } else {
        (count + 1) as u32
    }
}

/// The monitor of a connection that came up at `now`.
pub open spec fn started_spec(now: u64) -> LivenessMonitor {
    LivenessMonitor {
        state: ProbeState::Resting { next_probe_at: later(now, PROBE_INTERVAL_MS) },
        failures_in_a_row: 0,
    }
}

/// Whether the echo of a probe sent at `sent_at` is overdue at `now`.
pub open spec fn overdue(sent_at: u64, now: u64) -> bool {
    now >= sent_at && now - sent_at >= PROBE_TIMEOUT_MS
}

/// What the monitor does at `now`, with `nonce` at hand for a new probe:
/// while resting it sends a probe once one is due; while waiting it reports
/// a failure once the echo is overdue, and rests.
pub open spec fn poll_spec(monitor: LivenessMonitor, now: u64, nonce: u64) -> (
    LivenessMonitor,
    Option<LivenessEvent>,
) {
    match monitor.state {
        ProbeState::Resting { next_probe_at } => if now >= next_probe_at {
            (
                LivenessMonitor { state: ProbeState::Awaiting { nonce, sent_at: now }, ..monitor },
                Some(LivenessEvent::SendProbe(nonce)),
            )
        } else {
            (monitor, None)
        },
        ProbeState::Awaiting { nonce: _, sent_at } => if overdue(sent_at, now) {
            (
                LivenessMonitor {
                    state: ProbeState::Resting { next_probe_at: later(now, PROBE_INTERVAL_MS) },
                    failures_in_a_row: one_more(monitor.failures_in_a_row),
                },
                Some(LivenessEvent::Failure),
            )
        } else {
            (monitor, None)
        },
    }
}

/// What the monitor does about an echo that arrives at `now`: the echo of
/// the probe under way, in time, gives the round trip and clears the
/// failures; any other echo is ignored.
pub open spec fn echo_spec(monitor: LivenessMonitor, echoed: u64, now: u64) -> (
    LivenessMonitor,
    Option<LivenessEvent>,
) {
    match monitor.state {
        ProbeState::Awaiting { nonce, sent_at } => if echoed == nonce && now >= sent_at && now
            - sent_at < PROBE_TIMEOUT_MS {
            (
                LivenessMonitor {
                    state: ProbeState::Resting { next_probe_at: later(now, PROBE_INTERVAL_MS) },
                    failures_in_a_row: 0,
                },
                Some(LivenessEvent::RoundTrip((now - sent_at) as u64)),
            )
        } else {
            (monitor, None)
        },
        ProbeState::Resting { .. } => (monitor, None),
    }
}

/// `time` moved on by `by`, held at the largest time there is.
fn move_on(time: u64, by: u64) -> (moved: u64)
    ensures
        moved == later(time, by),
{
    if by > u64::MAX - time {
        u64::MAX
    } else {
        time + by
    }
}

impl LivenessMonitor {
    /// The monitor of a connection that came up at `now`. The first probe is
    /// due one interval later.
    pub fn started(now: u64) -> (monitor: LivenessMonitor)
        ensures
            monitor == started_spec(now),
    {
        LivenessMonitor {
            state: ProbeState::Resting { next_probe_at: move_on(now, PROBE_INTERVAL_MS) },
            failures_in_a_row: 0,
        }
    }

    /// Looks at the clock. `nonce` is used if a probe is to be sent.
    pub fn poll(&mut self, now: u64, nonce: u64) -> (event: Option<LivenessEvent>)
        ensures
            *final(self) == poll_spec(*old(self), now, nonce).0,
            event == poll_spec(*old(self), now, nonce).1,
    {
        match self.state {
            ProbeState::Resting { next_probe_at } => {
                if now >= next_probe_at {
                    self.state = ProbeState::Awaiting { nonce, sent_at: now };
                    Some(LivenessEvent::SendProbe(nonce))
                } else {
                    None
                }
            },
            ProbeState::Awaiting { nonce: _, sent_at } => {
                if now >= sent_at && now - sent_at >= PROBE_TIMEOUT_MS {
                    self.state = ProbeState::Resting {
                        next_probe_at: move_on(now, PROBE_INTERVAL_MS),
                    };
                    if self.failures_in_a_row < u32::MAX {
                        self.failures_in_a_row = self.failures_in_a_row + 1;
                    }
                    Some(LivenessEvent::Failure)
                } else {
                    None
                }
            },
        }
    }

    /// Takes an echo that arrived at `now`.
    pub fn echo(&mut self, echoed: u64, now: u64) -> (event: Option<LivenessEvent>)
        ensures
            *final(self) == echo_spec(*old(self), echoed, now).0,
            event == echo_spec(*old(self), echoed, now).1,
    {
        match self.state {
            ProbeState::Awaiting { nonce, sent_at } => {
                if echoed == nonce && now >= sent_at && now - sent_at < PROBE_TIMEOUT_MS {
                    self.state = ProbeState::Resting {
                        next_probe_at: move_on(now, PROBE_INTERVAL_MS),
                    };
                    self.failures_in_a_row = 0;
                    Some(LivenessEvent::RoundTrip(now - sent_at))
                } else {
                    None
                }
            },
            ProbeState::Resting { .. } => None,
        }
    }
}

/// A measured round trip is shorter than the bound, and it is the time
/// since the probe was sent.
pub proof fn lemma_round_trip_is_in_time(monitor: LivenessMonitor, echoed: u64, now: u64)
    ensures
        echo_spec(monitor, echoed, now).1 matches Some(event) ==> (event matches LivenessEvent::RoundTrip(
            millis,
        ) && millis < PROBE_TIMEOUT_MS && monitor.state == (ProbeState::Awaiting {
            nonce: echoed,
            sent_at: (now - millis) as u64,
        })),
        echo_spec(monitor, echoed, now).1 is Some ==> echo_spec(
            monitor,
            echoed,
            now,
        ).0.failures_in_a_row == 0,
        echo_spec(monitor, echoed, now).1 is None ==> echo_spec(monitor, echoed, now).0 == monitor,
{
}

/// A probe never stays unanswered for ever: once its echo is overdue, the
/// next look at the clock reports the failure, and only then.
pub proof fn lemma_missed_echo_is_reported(monitor: LivenessMonitor, now: u64, nonce: u64)
    ensures
        poll_spec(monitor, now, nonce).1 == Some(LivenessEvent::Failure) <==> (
        monitor.state matches ProbeState::Awaiting { nonce: _, sent_at } && overdue(sent_at, now)),
        poll_spec(monitor, now, nonce).1 == Some(LivenessEvent::Failure) ==> poll_spec(
            monitor,
            now,
            nonce,
        ).0.state is Resting,
{
}

} // verus!
