//! The decisions of an output stream shared by many subscribers: frames
//! are gathered in one buffer and flushed, when it is large enough or on a
//! timer, into a bounded send queue per subscriber. A subscriber whose queue
//! would overflow drops every other flush for two seconds; one that cannot
//! send for five seconds is dropped.
//!
//! The sockets stay with the caller: after a flush it writes the front of
//! each queue and reports what the write did (`record_write`), then removes
//! the subscribers marked dead (`take_dead`).
use std::collections::VecDeque;
use vstd::prelude::*;
use crate::ingest::since;

verus! {

/// Buffered bytes that trigger a flush.
pub const FLUSH_SIZE: usize = 1280;

/// Capacity of one subscriber's send queue.
pub const SENDQ_MAX: usize = 262144;

/// How long a subscriber that overflowed drops every other flush, in ns.
pub const DROP_HALF_NS: u128 = 2_000_000_000;

/// A subscriber that cannot send for this long is dropped, in ns.
pub const SEND_STALL_NS: u128 = 5_000_000_000;

/// The Beast heartbeat frame: a Mode A/C frame of zeros.
pub open spec fn heartbeat() -> Seq<u8> {
    seq![0x1au8, 0x31u8, 0u8, 0u8, 0u8, 0u8, 0u8, 0u8, 0u8, 0u8, 0u8]
}

/// A subscriber's send queue and state.
pub struct ClientQueue {
    sendq: VecDeque<u8>,
    pub sendq_max: usize,
    pub drop_half: bool,
    pub drop_half_toggle: bool,
    /// Until when every other flush is dropped (ns).
    pub drop_until: u128,
    /// When the last bytes were sent (ns).
    pub last_send: u128,
    /// Bytes queued for sending (wrapping).
    pub bytes_sent: u64,
    /// Bytes the writer offered (wrapping).
    pub bytes_from_writer: u64,
    pub dead: bool,
}

/// A `ClientQueue` as plain values.
pub struct QueueModel {
    pub sendq: Seq<u8>,
    pub sendq_max: usize,
    pub drop_half: bool,
    pub drop_half_toggle: bool,
    pub drop_until: u128,
    pub last_send: u128,
    pub bytes_sent: u64,
    pub bytes_from_writer: u64,
    pub dead: bool,
}

impl View for ClientQueue {
    type V = QueueModel;

    closed spec fn view(&self) -> QueueModel {
        QueueModel {
            sendq: self.sendq@,
            sendq_max: self.sendq_max,
            drop_half: self.drop_half,
            drop_half_toggle: self.drop_half_toggle,
            drop_until: self.drop_until,
            last_send: self.last_send,
            bytes_sent: self.bytes_sent,
            bytes_from_writer: self.bytes_from_writer,
            dead: self.dead,
        }
    }
}

impl ClientQueue {
    /// The bytes waiting to be sent, oldest first.
    pub fn queue(&self) -> (q: &VecDeque<u8>)
        ensures
            q@ == self@.sendq,
    {
        &self.sendq
    }
}

/// Wrapping addition of a length to a counter.
pub open spec fn wadd64(x: u64, n: u64) -> u64 {
    if x + n > u64::MAX {
        (x + n - 0x1_0000_0000_0000_0000) as u64
    } else {
        (x + n) as u64
    }
}

/// A subscriber's queue after a flush of `data` at `now` (a clock reading
/// with two seconds to spare): a queue that would overflow starts dropping
/// every other flush for two seconds; while dropping, the toggle flips each
/// flush and the data is skipped when it is set or the queue would
/// overflow; otherwise the data is queued.
pub open spec fn client_flush(c: QueueModel, data: Seq<u8>, now: u128) -> QueueModel {
    if c.dead {
        c
    } else {
        let c1 = QueueModel { bytes_from_writer: wadd64(c.bytes_from_writer, data.len() as u64), ..c };
        let insufficient = c.sendq.len() + data.len() > c.sendq_max;
        let c2 = if insufficient {
            QueueModel {
                drop_half: true,
                drop_half_toggle: true,
                drop_until: (now + DROP_HALF_NS) as u128,
                ..c1
            }
        } else {
            c1
        };
        if c2.drop_until > now {
            let c3 = QueueModel { drop_half_toggle: !c2.drop_half_toggle, ..c2 };
            if c3.drop_half_toggle || insufficient {
                c3
            } else {
                QueueModel { sendq: c3.sendq + data, bytes_sent: wadd64(c3.bytes_sent, data.len() as u64), ..c3 }
            }
        } else {
            QueueModel { sendq: c2.sendq + data, bytes_sent: wadd64(c2.bytes_sent, data.len() as u64), ..c2 }
        }
    }
}

/// What writing the front of a queue to its socket did.
#[derive(Clone, Copy, Debug, PartialEq, Eq, Structural)]
pub enum WriteOutcome {
    /// The peer closed (a write of zero bytes).
    Closed,
    /// This many bytes were written.
    Wrote(usize),
    /// The socket would block; nothing was written.
    WouldBlock,
    /// The write failed.
    Failed,
}

/// A queue after a write with `outcome` at `now`: written bytes leave the
/// queue; a closed or failed socket is dead, and so is one that still has
/// bytes after five seconds without sending.
pub open spec fn after_write(c: QueueModel, outcome: WriteOutcome, now: u128) -> QueueModel {
    let c1 = match outcome {
        WriteOutcome::Closed => QueueModel { dead: true, ..c },
        WriteOutcome::Wrote(n) => QueueModel { sendq: c.sendq.skip(n as int), last_send: now, ..c },
        WriteOutcome::WouldBlock => c,
        WriteOutcome::Failed => QueueModel { dead: true, ..c },
    };
    if since(c1.last_send, now) > SEND_STALL_NS && c1.sendq.len() > 0 {
        QueueModel { dead: true, ..c1 }
    } else {
        c1
    }
}

/// The live subscribers, in order.
pub open spec fn live_only(cs: Seq<QueueModel>) -> Seq<QueueModel>
    decreases cs.len(),
{
    if cs.len() == 0 {
        cs
    } else if cs.last().dead {
        live_only(cs.drop_last())
    } else {
        live_only(cs.drop_last()).push(cs.last())
    }
}

/// A flush never fills a send queue beyond its capacity, and a write
/// never adds to a queue.
pub proof fn lemma_queue_bounded(c: QueueModel, data: Seq<u8>, now: u128, outcome: WriteOutcome)
    requires
        c.sendq.len() <= c.sendq_max,
        now + DROP_HALF_NS <= u128::MAX,
        outcome matches WriteOutcome::Wrote(n) ==> n <= c.sendq.len(),
    ensures
        client_flush(c, data, now).sendq.len() <= c.sendq_max,
        client_flush(c, data, now).sendq_max == c.sendq_max,
        after_write(c, outcome, now).sendq.len() <= c.sendq.len(),
{
}

/// A subscriber whose queue would overflow gets none of the flushed
/// data, and none while it is dropping and the toggle is set.
pub proof fn lemma_overflow_skips(c: QueueModel, data: Seq<u8>, now: u128)
    requires
        !c.dead,
        c.sendq.len() + data.len() > c.sendq_max,
        now + DROP_HALF_NS <= u128::MAX,
    ensures
        client_flush(c, data, now).sendq == c.sendq,
        client_flush(c, data, now).drop_half,
{
}

/// The writer as plain values.
pub struct WriterModel {
    pub buf: Seq<u8>,
    pub last_flush: u128,
    pub last_write: u128,
    pub clients: Seq<QueueModel>,
}

/// A flush at `now`: a non-empty buffer goes to every live subscriber's
/// queue (see `client_flush`) and is emptied, and both times become `now`.
pub open spec fn flush_step(w: WriterModel, now: u128) -> WriterModel {
    if w.buf.len() == 0 {
        w
    } else {
        WriterModel {
            buf: Seq::empty(),
            last_flush: now,
            last_write: now,
            clients: Seq::new(w.clients.len(), |i: int| client_flush(w.clients[i], w.buf, now)),
        }
    }
}

/// One output stream's buffer and subscriber queues.
pub struct OutputWriter {
    buf: Vec<u8>,
    flush_size: usize,
    flush_interval_ns: u128,
    heartbeat_interval_ns: u128,
    last_flush: u128,
    last_write: u128,
    clients: Vec<ClientQueue>,
}

impl OutputWriter {
    /// The writer as plain values.
    pub closed spec fn model(&self) -> WriterModel {
        WriterModel {
            buf: self.buf@,
            last_flush: self.last_flush,
            last_write: self.last_write,
            clients: self.clients@.map_values(|c: ClientQueue| c@),
        }
    }

    /// The flush interval, in ns.
    pub closed spec fn flush_interval(&self) -> u128 {
        self.flush_interval_ns
    }

    /// The heartbeat interval, in ns.
    pub closed spec fn heartbeat_interval(&self) -> u128 {
        self.heartbeat_interval_ns
    }

    /// The buffer size that triggers a flush.
    pub closed spec fn flush_size(&self) -> nat {
        self.flush_size as nat
    }

    /// The intervals and the flush size stay as they were.
    pub open spec fn same_settings(&self, other: &Self) -> bool {
        &&& self.flush_interval() == other.flush_interval()
        &&& self.heartbeat_interval() == other.heartbeat_interval()
        &&& self.flush_size() == other.flush_size()
    }

    /// A writer with no subscribers that flushes every `flush_interval_ms`
    /// and sends a heartbeat after `heartbeat_secs` without output; `now` is
    /// the clock reading at start.
    pub fn new(flush_interval_ms: u64, heartbeat_secs: u64, now: u128) -> (w: Self)
        ensures
            w.model() == (WriterModel {
                buf: Seq::empty(),
                last_flush: now,
                last_write: now,
                clients: Seq::empty(),
            }),
            w.flush_interval() == flush_interval_ms as nat * 1_000_000,
            w.heartbeat_interval() == heartbeat_secs as nat * 1_000_000_000,
            w.flush_size() == FLUSH_SIZE,
    {
        let w = OutputWriter {
            buf: Vec::new(),
            flush_size: FLUSH_SIZE,
            flush_interval_ns: (flush_interval_ms as u128) * 1_000_000,
            heartbeat_interval_ns: (heartbeat_secs as u128) * 1_000_000_000,
            last_flush: now,
            last_write: now,
            clients: Vec::new(),
        };
        assert(w.model().clients =~= Seq::<QueueModel>::empty());
        w
    }

    /// Buffers `data` at `now`; once the buffer reaches the flush size it
    /// is flushed into the subscribers' queues (see `flush_step`). True
    /// when that happened, so that the queues are to be written out.
    pub fn append(&mut self, data: &[u8], now: u128) -> (flushed: bool)
        requires
            now + DROP_HALF_NS <= u128::MAX,
        ensures
            final(self).same_settings(old(self)),
            flushed == (old(self).model().buf.len() + data@.len() >= old(self).flush_size()),
            flushed ==> final(self).model() == flush_step(
                WriterModel { buf: old(self).model().buf + data@, ..old(self).model() },
                now,
            ),
            !flushed ==> final(self).model() == (WriterModel {
                buf: old(self).model().buf + data@,
                ..old(self).model()
            }),
            old(self).flush_size() > 0 ==> final(self).model().buf.len() < final(self).flush_size(),
    {
        self.buffer(data);
        if self.buf.len() >= self.flush_size {
            self.flush(now);
            true
        } else {
            false
        }
    }

    fn buffer(&mut self, data: &[u8])
        ensures
            final(self).model() == (WriterModel { buf: old(self).model().buf + data@, ..old(self).model() }),
            final(self).same_settings(old(self)),
    {
        let mut i: usize = 0;
        while i < data.len()
            invariant
                i <= data@.len(),
                self.buf@ == old(self).buf@ + data@.take(i as int),
                self.clients@ == old(self).clients@,
                self.last_flush == old(self).last_flush,
                self.last_write == old(self).last_write,
                self.same_settings(old(self)),
            decreases data@.len() - i,
        {
            self.buf.push(data[i]);
            assert(old(self).buf@ + data@.take(i + 1) =~= (old(self).buf@ + data@.take(i as int)).push(
                data@[i as int],
            ));
            i += 1;
        }
        assert(data@.take(data@.len() as int) =~= data@);
    }

    /// The timer flush at `now`: when the buffer holds data and the flush
    /// interval has passed since the last flush, the buffer is flushed
    /// (see `flush_step`); true when that happened.
    pub fn timer_flush(&mut self, now: u128) -> (flushed: bool)
        requires
            now + DROP_HALF_NS <= u128::MAX,
        ensures
            final(self).same_settings(old(self)),
            flushed == (old(self).model().buf.len() > 0 && since(old(self).model().last_flush, now)
                >= old(self).flush_interval()),
            flushed ==> final(self).model() == flush_step(old(self).model(), now),
            !flushed ==> final(self).model() == old(self).model(),
    {
        if self.flush_due(now) {
            self.flush(now);
            true
        } else {
            false
        }
    }

    /// The heartbeat at `now`: when nothing was written for the heartbeat
    /// interval, a heartbeat frame is buffered and the buffer flushed (see
    /// `flush_step`); true when that happened.
    pub fn heartbeat_flush(&mut self, now: u128) -> (flushed: bool)
        requires
            now + DROP_HALF_NS <= u128::MAX,
        ensures
            final(self).same_settings(old(self)),
            flushed == (since(old(self).model().last_write, now) >= old(self).heartbeat_interval()),
            flushed ==> final(self).model() == flush_step(
                WriterModel { buf: old(self).model().buf + heartbeat(), ..old(self).model() },
                now,
            ),
            !flushed ==> final(self).model() == old(self).model(),
    {
        if self.heartbeat_due(now) {
            self.add_heartbeat();
            self.flush(now);
            true
        } else {
            false
        }
    }

    /// Whether the timer flush is due at `now`: the buffer holds data and
    /// the flush interval has passed since the last flush.
    pub fn flush_due(&self, now: u128) -> (due: bool)
        ensures
            due == (self.model().buf.len() > 0 && since(self.model().last_flush, now)
                >= self.flush_interval()),
    {
        let elapsed = if now >= self.last_flush {
            now - self.last_flush
        } else {
            0
        };
        self.buf.len() > 0 && elapsed >= self.flush_interval_ns
    }

    /// Whether a heartbeat is due at `now`: nothing was written for the
    /// heartbeat interval.
    pub fn heartbeat_due(&self, now: u128) -> (due: bool)
        ensures
            due == (since(self.model().last_write, now) >= self.heartbeat_interval()),
    {
        let elapsed = if now >= self.last_write {
            now - self.last_write
        } else {
            0
        };
        elapsed >= self.heartbeat_interval_ns
    }

    /// Buffers a heartbeat frame.
    pub fn add_heartbeat(&mut self)
        ensures
            final(self).model() == (WriterModel {
                buf: old(self).model().buf + heartbeat(),
                ..old(self).model()
            }),
            final(self).same_settings(old(self)),
    {
        let ghost b0 = self.buf@;
        self.buf.push(0x1a);
        self.buf.push(0x31);
        let mut k: usize = 0;
        while k < 9
            invariant
                k <= 9,
                self.buf@ == b0 + seq![0x1au8, 0x31u8] + Seq::new(k as nat, |j: int| 0u8),
                self.clients@ == old(self).clients@,
                self.last_flush == old(self).last_flush,
                self.last_write == old(self).last_write,
                self.same_settings(old(self)),
            decreases 9 - k,
        {
            self.buf.push(0);
            assert(b0 + seq![0x1au8, 0x31u8] + Seq::new((k + 1) as nat, |j: int| 0u8) =~= (b0
                + seq![0x1au8, 0x31u8] + Seq::new(k as nat, |j: int| 0u8)).push(0));
            k += 1;
        }
        assert(self.buf@ =~= b0 + heartbeat());
    }

    /// Flushes the buffer into the subscribers' queues at `now` (see
    /// `flush_step`); true when there was data, so that the queues are to be
    /// written out.
    pub fn flush(&mut self, now: u128) -> (flushed: bool)
        requires
            now + DROP_HALF_NS <= u128::MAX,
        ensures
            final(self).model() == flush_step(old(self).model(), now),
            final(self).same_settings(old(self)),
            flushed == (old(self).model().buf.len() > 0),
    {
        if self.buf.len() == 0 {
            return false;
        }
        let ghost m0 = self.model();
        let mut i: usize = 0;
        while i < self.clients.len()
            invariant
                i <= self.clients@.len(),
                self.clients@.len() == m0.clients.len(),
                self.buf@ == m0.buf,
                m0.buf.len() > 0,
                now + DROP_HALF_NS <= u128::MAX,
                self.last_flush == old(self).last_flush,
                self.last_write == old(self).last_write,
                self.same_settings(old(self)),
                forall|j: int| 0 <= j < i ==> #[trigger] self.clients@[j]@ == client_flush(m0.clients[j], m0.buf, now),
                forall|j: int| i <= j < self.clients@.len() ==> #[trigger] self.clients@[j]@ == m0.clients[j],
            decreases self.clients@.len() - i,
        {
            let mut c = self.clients.remove(i);
            flush_client(&mut c, &self.buf, now);
            self.clients.insert(i, c);
            i += 1;
        }
        self.buf.clear();
        self.last_flush = now;
        self.last_write = now;
        assert(self.model().clients =~= flush_step(m0, now).clients);
        true
    }

    /// Adds a subscriber at `now`, with an empty queue.
    pub fn add_client(&mut self, now: u128)
        ensures
            final(self).model() == (WriterModel {
                clients: old(self).model().clients.push(
                    QueueModel {
                        sendq: Seq::empty(),
                        sendq_max: SENDQ_MAX,
                        drop_half: false,
                        drop_half_toggle: false,
                        drop_until: now,
                        last_send: now,
                        bytes_sent: 0,
                        bytes_from_writer: 0,
                        dead: false,
                    },
                ),
                ..old(self).model()
            }),
            final(self).same_settings(old(self)),
    {
        self.clients.push(
            ClientQueue {
                sendq: VecDeque::with_capacity(32768),
                sendq_max: SENDQ_MAX,
                drop_half: false,
                drop_half_toggle: false,
                drop_until: now,
                last_send: now,
                bytes_sent: 0,
                bytes_from_writer: 0,
                dead: false,
            },
        );
        assert(self.model().clients =~= old(self).model().clients.push(self.clients@.last()@));
    }

    /// How many subscribers there are.
    pub fn client_count(&self) -> (n: usize)
        ensures
            n == self.model().clients.len(),
    {
        self.clients.len()
    }

    /// The subscriber at `i`.
    pub fn client(&self, i: usize) -> (c: &ClientQueue)
        requires
            i < self.model().clients.len(),
        ensures
            c@ == self.model().clients[i as int],
    {
        &self.clients[i]
    }

    /// Whether the subscriber at `i` is to be written to: it is live and its
    /// queue holds bytes.
    pub fn wants_write(&self, i: usize) -> (w: bool)
        requires
            i < self.model().clients.len(),
        ensures
            w == (!self.model().clients[i as int].dead && self.model().clients[i as int].sendq.len()
                > 0),
    {
        !self.clients[i].dead && self.clients[i].sendq.len() > 0
    }

    /// Takes what writing the front of subscriber `i`'s queue did at `now`
    /// (see `after_write`).
    pub fn record_write(&mut self, i: usize, outcome: WriteOutcome, now: u128)
        requires
            i < old(self).model().clients.len(),
            outcome matches WriteOutcome::Wrote(n) ==> n <= old(self).model().clients[i as int].sendq.len(),
        ensures
            final(self).model() == (WriterModel {
                clients: old(self).model().clients.update(
                    i as int,
                    after_write(old(self).model().clients[i as int], outcome, now),
                ),
                ..old(self).model()
            }),
            final(self).same_settings(old(self)),
    {
        let mut c = self.clients.remove(i);
        assert(c@ == old(self).model().clients[i as int]);
        match outcome {
            WriteOutcome::Closed => {
                c.dead = true;
            },
            WriteOutcome::Wrote(n) => {
                let mut k: usize = 0;
                let ghost q0 = c.sendq@;
                let ghost c0 = c@;
                assert(q0.skip(0) =~= q0);
                while k < n
                    invariant
                        k <= n,
                        n <= q0.len(),
                        q0 == c0.sendq,
                        c@ == (QueueModel { sendq: q0.skip(k as int), ..c0 }),
                    decreases n - k,
                {
                    c.sendq.pop_front();
                    assert(q0.skip(k as int).subrange(1, q0.skip(k as int).len() as int) =~= q0.skip(
                        k + 1,
                    ));
                    k += 1;
                }
                c.last_send = now;
            },
            WriteOutcome::WouldBlock => {},
            WriteOutcome::Failed => {
                c.dead = true;
            },
        }
        let idle = if now >= c.last_send {
            now - c.last_send
        } else {
            0
        };
        if idle > SEND_STALL_NS && c.sendq.len() > 0 {
            c.dead = true;
        }
        assert(c@ == after_write(old(self).model().clients[i as int], outcome, now));
        self.clients.insert(i, c);
        assert(self.model().clients =~= old(self).model().clients.update(
            i as int,
            after_write(old(self).model().clients[i as int], outcome, now),
        ));
    }

    /// Removes the dead subscribers; the result tells, for each subscriber
    /// before, whether it was kept.
    pub fn take_dead(&mut self) -> (kept: Vec<bool>)
        ensures
            final(self).model() == (WriterModel {
                clients: live_only(old(self).model().clients),
                ..old(self).model()
            }),
            final(self).same_settings(old(self)),
            kept@.len() == old(self).model().clients.len(),
            forall|j: int| 0 <= j < kept@.len() ==> kept@[j] == !old(self).model().clients[j].dead,
    {
        let ghost all = self.model().clients;
        let mut old_clients: Vec<ClientQueue> = Vec::new();
        std::mem::swap(&mut old_clients, &mut self.clients);
        let mut rest: Vec<ClientQueue> = Vec::new();
        let n = old_clients.len();
        let mut rev: Vec<ClientQueue> = Vec::new();
        while old_clients.len() > 0
            invariant
                old_clients@.len() + rev@.len() == n,
                n == all.len(),
                forall|j: int| 0 <= j < old_clients@.len() ==> #[trigger] old_clients@[j]@ == all[j],
                forall|j: int| 0 <= j < rev@.len() ==> #[trigger] rev@[j]@ == all[n - 1 - j],
            decreases old_clients@.len(),
        {
            let c = old_clients.pop().unwrap();
            rev.push(c);
        }
        let mut kept: Vec<bool> = Vec::new();
        let mut i: usize = 0;
        while rev.len() > 0
            invariant
                i + rev@.len() == n,
                n == all.len(),
                forall|j: int| 0 <= j < rev@.len() ==> #[trigger] rev@[j]@ == all[n - 1 - j],
                rest@.map_values(|c: ClientQueue| c@) == live_only(all.take(i as int)),
                kept@.len() == i,
                forall|j: int| 0 <= j < i ==> kept@[j] == !all[j].dead,
                self.buf@ == old(self).buf@,
                self.last_flush == old(self).last_flush,
                self.last_write == old(self).last_write,
                self.same_settings(old(self)),
            decreases rev@.len(),
        {
            let c = rev.pop().unwrap();
            let ghost r0 = rest@.map_values(|c: ClientQueue| c@);
            assert(c@ == all[i as int]);
            proof {
                assert(all.take(i + 1).drop_last() =~= all.take(i as int));
                assert(all.take(i + 1).last() == all[i as int]);
            }
            if c.dead {
                kept.push(false);
            } else {
                kept.push(true);
                rest.push(c);
                assert(rest@.map_values(|c: ClientQueue| c@) =~= r0.push(all[i as int]));
            }
            i += 1;
        }
        assert(all.take(n as int) =~= all);
        self.clients = rest;
        kept
    }
}

/// One subscriber's part of a flush of `data` at `now`.
fn flush_client(c: &mut ClientQueue, data: &Vec<u8>, now: u128)
    requires
        now + DROP_HALF_NS <= u128::MAX,
    ensures
        final(c)@ == client_flush(old(c)@, data@, now),
{
    if c.dead {
        return;
    }
    let data_len = data.len();
    c.bytes_from_writer = c.bytes_from_writer.wrapping_add(data_len as u64);
    let insufficient = c.sendq.len() as u128 + data_len as u128 > c.sendq_max as u128;
    if insufficient {
        c.drop_half = true;
        c.drop_half_toggle = true;
        c.drop_until = now + DROP_HALF_NS;
    }
    if c.drop_until > now {
        c.drop_half_toggle = !c.drop_half_toggle;
        if c.drop_half_toggle || insufficient {
            return;
        }
    }
    let ghost q0 = c.sendq@;
    let ghost c0 = c@;
    let mut i: usize = 0;
    while i < data_len
        invariant
            i <= data_len,
            data_len == data@.len(),
            q0 == c0.sendq,
            c@ == (QueueModel { sendq: q0 + data@.take(i as int), ..c0 }),
        decreases data_len - i,
    {
        c.sendq.push_back(data[i]);
        assert(q0 + data@.take(i + 1) =~= (q0 + data@.take(i as int)).push(data@[i as int]));
        i += 1;
    }
    assert(data@.take(data_len as int) =~= data@);
    c.bytes_sent = c.bytes_sent.wrapping_add(data_len as u64);
}

} // verus!
