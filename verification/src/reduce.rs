//! Per-aircraft rate reduction of the forwarded frame stream.
use std::collections::HashMap;
use vstd::prelude::*;

verus! {

broadcast use vstd::std_specs::hash::group_hash_axioms;

/// Remembers when a frame of each aircraft was last forwarded; times are
/// nanoseconds on one monotonic clock.
pub struct ReduceState {
    last_sent: HashMap<u32, u128>,
    interval_ns: u128,
}

/// Whether a frame of an aircraft last forwarded at `last` (if ever) is
/// forwarded at `now`: when never forwarded, or when at least `interval`
/// has passed (a clock that went backwards counts as no time passed).
pub open spec fn emit_due(last: Option<u128>, now: u128, interval: u128) -> bool {
    match last {
        None => true,
        Some(t) => {
            let elapsed = if now >= t {
                now - t
            } else {
                0
            };
            elapsed >= interval
        },
    }
}

/// The time an aircraft was last forwarded, if ever.
pub open spec fn last_sent(sent: Map<u32, u128>, icao: u32) -> Option<u128> {
    if sent.contains_key(icao) {
        Some(sent[icao])
    } else {
        None
    }
}

/// Once a frame of an aircraft is forwarded at `t`, no other frame of
/// it is forwarded before `t + interval`, and the next one after that is.
pub proof fn lemma_one_per_interval(sent: Map<u32, u128>, icao: u32, t: u128, t2: u128, interval: u128)
    requires
        t <= t2,
    ensures
        emit_due(last_sent(sent.insert(icao, t), icao), t2, interval) <==> t2 - t >= interval,
{
}

impl ReduceState {
    /// Last forwarding time of each aircraft.
    pub closed spec fn sent(&self) -> Map<u32, u128> {
        self.last_sent@
    }

    /// Minimum spacing between forwarded frames of one aircraft.
    pub closed spec fn interval(&self) -> u128 {
        self.interval_ns
    }

    /// A reducer that forwards at most one frame per aircraft per `interval_ns`.
    pub fn new(interval_ns: u128) -> (r: Self)
        ensures
            r.sent() == Map::<u32, u128>::empty(),
            r.interval() == interval_ns,
    {
        ReduceState { last_sent: HashMap::new(), interval_ns }
    }

    /// Decides whether a frame of `icao` seen at `now` is forwarded, and if
    /// so records `now` as its last forwarding time.
    pub fn should_emit(&mut self, icao: u32, now: u128) -> (emit: bool)
        ensures
            final(self).interval() == old(self).interval(),
            emit == emit_due(
                if old(self).sent().contains_key(icao) {
                    Some(old(self).sent()[icao])
                } else {
                    None
                },
                now,
                old(self).interval(),
            ),
            emit ==> final(self).sent() == old(self).sent().insert(icao, now),
            !emit ==> final(self).sent() == old(self).sent(),
    {
        match self.last_sent.get(&icao) {
            Some(last) => {
                let t = *last;
                let elapsed = if now >= t {
                    now - t
                } else {
                    0
                };
                if elapsed < self.interval_ns {
                    return false;
                }
            },
            None => {},
        }
        self.last_sent.insert(icao, now);
        true
    }
}

} // verus!
