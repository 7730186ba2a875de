//! Decisions of the feeder ingest loop: which forwarded frames are decoded,
//! how a Beast frame's Mode-S payload is unescaped, and when the periodic
//! flush, cache and trace work is due.
use vstd::prelude::*;
use crate::mode_s::{decode, mode_s_message, ModeS};

verus! {

/// The body bytes read from wire position `i` on, `count` of `total` taken
/// so far: an escape byte 0x1a stands before each body byte that is itself
/// 0x1a (whatever follows it is taken); none when the wire ends right after
/// an escape byte; fewer than `total` when the wire runs out.
pub open spec fn unescaped_body(wire: Seq<u8>, i: int, count: int, total: int) -> Option<Seq<u8>>
    decreases wire.len() - i,
{
    if count >= total || i < 0 || i >= wire.len() {
        Some(Seq::empty())
    } else if wire[i] == 0x1a {
        if i + 1 >= wire.len() {
            None
        } else {
            match unescaped_body(wire, i + 2, count + 1, total) {
                Some(rest) => Some(seq![wire[i + 1]] + rest),
                None => None,
            }
        }
    } else {
        match unescaped_body(wire, i + 1, count + 1, total) {
            Some(rest) => Some(seq![wire[i]] + rest),
            None => None,
        }
    }
}

/// Payload length of a Mode-AC (0x31), short (0x32) or long (0x33) frame.
pub open spec fn payload_len_of(t: u8) -> Option<nat> {
    if t == 0x31 {
        Some(2)
    } else if t == 0x32 {
        Some(7)
    } else if t == 0x33 {
        Some(14)
    } else {
        None
    }
}

/// The Mode-S payload of a Beast wire frame: the body (6 timestamp bytes, 1
/// signal byte, payload) unescaped, without the first 7 bytes; none for
/// frames under 4 bytes, other types, or a body cut short.
pub open spec fn wire_payload(wire: Seq<u8>) -> Option<Seq<u8>> {
    if wire.len() < 4 {
        None
    } else {
        match payload_len_of(wire[1]) {
            None => None,
            Some(n) => match unescaped_body(wire, 2, 0, (7 + n) as int) {
                Some(body) => if body.len() == 7 + n {
                    Some(body.skip(7))
                } else {
                    None
                },
                None => None,
            },
        }
    }
}

/// Unescapes a Beast wire frame and returns its raw Mode-S payload (2, 7 or
/// 14 bytes).
pub fn unescape_payload(wire: &[u8]) -> (r: Option<Vec<u8>>)
    ensures
        match r {
            Some(v) => wire_payload(wire@) == Some(v@),
            None => wire_payload(wire@) is None,
        },
{
    let n = wire.len();
    if n < 4 {
        return None;
    }
    let payload_len: usize = if wire[1] == 0x31 {
        2
    } else if wire[1] == 0x32 {
        7
    } else if wire[1] == 0x33 {
        14
    } else {
        return None;
    };
    let total = 6 + 1 + payload_len;
    let mut body: Vec<u8> = Vec::new();
    let mut i: usize = 2;
    let mut count: usize = 0;
    while count < total && i < n
        invariant
            n == wire@.len(),
            n >= 4,
            payload_len_of(wire@[1]) == Some(payload_len as nat),
            2 <= i,
            count <= total,
            total == 7 + payload_len,
            body@.len() == count,
            unescaped_body(wire@, 2, 0, total as int) == match unescaped_body(
                wire@,
                i as int,
                count as int,
                total as int,
            ) {
                Some(rest) => Some(body@ + rest),
                None => None,
            },
        decreases n - i,
    {
        let ghost b0 = body@;
        let ghost i0 = i as int;
        if wire[i] == 0x1a {
            i += 1;
            if i >= n {
                assert(unescaped_body(wire@, i0, count as int, total as int) is None);
                return None;
            }
        }
        body.push(wire[i]);
        proof {
            let rest = unescaped_body(wire@, i + 1, count + 1, total as int);
            match rest {
                Some(r) => {
                    assert(b0 + (seq![wire@[i as int]] + r) =~= body@ + r);
                },
                None => {},
            }
        }
        count += 1;
        i += 1;
    }
    proof {
        assert(unescaped_body(wire@, i as int, count as int, total as int) == Some(Seq::<u8>::empty()));
        assert(body@ + Seq::<u8>::empty() =~= body@);
    }
    if body.len() != total {
        return None;
    }
    let mut out: Vec<u8> = Vec::with_capacity(payload_len);
    let mut k: usize = 7;
    while k < total
        invariant
            7 <= k <= total,
            total == body@.len(),
            out@ == body@.subrange(7, k as int),
        decreases total - k,
    {
        out.push(body[k]);
        assert(body@.subrange(7, k as int).push(body@[k as int]) =~= body@.subrange(7, k + 1));
        k += 1;
    }
    assert(out@ =~= body@.skip(7));
    Some(out)
}

/// What decoding a forwarded frame gives: short (0x32) and long (0x33)
/// frames of 9 bytes or more are unescaped and decoded.
pub open spec fn wire_message(frame: Seq<u8>) -> Option<crate::mode_s::ModeSView> {
    if frame.len() >= 9 && (frame[1] == 0x32 || frame[1] == 0x33) {
        match wire_payload(frame) {
            Some(p) => mode_s_message(p),
            None => None,
        }
    } else {
        None
    }
}

/// Decodes a forwarded Beast frame as the ingest loop does.
pub fn decode_wire_frame(frame: &[u8]) -> (r: Option<ModeS>)
    ensures
        match r {
            Some(m) => wire_message(frame@) == Some(m@),
            None => wire_message(frame@) is None,
        },
{
    if frame.len() >= 9 && (frame[1] == 0x32 || frame[1] == 0x33) {
        match unescape_payload(frame) {
            Some(payload) => decode(payload.as_slice()),
            None => None,
        }
    } else {
        None
    }
}

/// Interval of the flush check: 50 ms.
pub const FLUSH_CHECK_NS: u128 = 50_000_000;

/// Interval of the JSON / binCraft cache rebuild: 1 s.
pub const CACHE_REBUILD_NS: u128 = 1_000_000_000;

/// Interval of the trace cache rebuild: 5 s.
pub const TRACE_REBUILD_NS: u128 = 5_000_000_000;

/// Periodic work due at one loop iteration.
#[derive(Clone, Copy, Debug, PartialEq, Eq)]
pub struct TimerActions {
    /// Flush the outputs and reap stale aircraft.
    pub flush: bool,
    /// Rebuild the aircraft caches and send the atlas frames.
    pub rebuild_caches: bool,
    /// Rebuild the trace cache.
    pub rebuild_trace: bool,
}

/// Nanoseconds from `then` to `now`; zero when the clock went backwards.
pub open spec fn since(then: u128, now: u128) -> u128 {
    if now >= then {
        (now - then) as u128
    } else {
        0
    }
}

/// When the periodic work was last done (nanoseconds on one clock).
#[derive(Clone, Copy, Debug, PartialEq, Eq)]
pub struct IngestTimers {
    pub last_flush_check: u128,
    pub last_cache_rebuild: u128,
    pub last_trace_rebuild: u128,
}

impl IngestTimers {
    /// All work last done at `now`.
    pub fn new(now: u128) -> (t: Self)
        ensures
            t.last_flush_check == now,
            t.last_cache_rebuild == now,
            t.last_trace_rebuild == now,
    {
        IngestTimers { last_flush_check: now, last_cache_rebuild: now, last_trace_rebuild: now }
    }

    /// The work due at `now`: every 50 ms a flush check, and within it the
    /// cache rebuild once a second and the trace rebuild every 5 s; records
    /// what was done.
    pub fn tick(&mut self, now: u128) -> (a: TimerActions)
        ensures
            a.flush == (since(old(self).last_flush_check, now) >= FLUSH_CHECK_NS),
            a.rebuild_caches == (a.flush && since(old(self).last_cache_rebuild, now) >= CACHE_REBUILD_NS),
            a.rebuild_trace == (a.flush && since(old(self).last_trace_rebuild, now) >= TRACE_REBUILD_NS),
            final(self).last_flush_check == if a.flush {
                now
            } else {
                old(self).last_flush_check
            },
            final(self).last_cache_rebuild == if a.rebuild_caches {
                now
            } else {
                old(self).last_cache_rebuild
            },
            final(self).last_trace_rebuild == if a.rebuild_trace {
                now
            } else {
                old(self).last_trace_rebuild
            },
    {
        let mut a = TimerActions { flush: false, rebuild_caches: false, rebuild_trace: false };
        if elapsed(self.last_flush_check, now) >= FLUSH_CHECK_NS {
            a.flush = true;
            if elapsed(self.last_cache_rebuild, now) >= CACHE_REBUILD_NS {
                a.rebuild_caches = true;
                self.last_cache_rebuild = now;
            }
            if elapsed(self.last_trace_rebuild, now) >= TRACE_REBUILD_NS {
                a.rebuild_trace = true;
                self.last_trace_rebuild = now;
            }
            self.last_flush_check = now;
        }
        a
    }
}

fn elapsed(then: u128, now: u128) -> (d: u128)
    ensures
        d == since(then, now),
{
    if now >= then {
        now - then
    } else {
        0
    }
}

} // verus!
