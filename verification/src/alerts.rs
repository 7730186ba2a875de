//! The most recent alerts, kept in a bounded ring: the oldest goes when a
//! new one arrives at capacity.
use std::collections::VecDeque;
use vstd::prelude::*;

verus! {

/// One alert; `ts_ms` is its time in milliseconds since the Unix epoch.
pub struct Alert {
    pub ts_ms: u64,
    pub level: String,
    pub kind: String,
    pub message: String,
    pub target: String,
}

/// The alerts after `a` arrives at a ring of capacity `max` holding `s`,
/// oldest first: the oldest is dropped when the ring is full (a ring of
/// capacity zero still keeps the newest alert).
pub open spec fn pushed(s: Seq<Alert>, max: nat, a: Alert) -> Seq<Alert> {
    let kept = if s.len() >= max && s.len() > 0 {
        s.subrange(1, s.len() as int)
    } else {
        s
    };
    kept.push(a)
}

/// The most recent alerts.
pub struct AlertStore {
    alerts: VecDeque<Alert>,
    max_size: usize,
}

impl AlertStore {
    /// The alerts held, oldest first.
    pub closed spec fn held(&self) -> Seq<Alert> {
        self.alerts@
    }

    /// The capacity.
    pub closed spec fn capacity(&self) -> nat {
        self.max_size as nat
    }

    /// The ring never holds more than its capacity, or one alert when the
    /// capacity is zero.
    pub open spec fn wf(&self) -> bool {
        self.held().len() <= if self.capacity() == 0 {
            1
        } else {
            self.capacity()
        }
    }

    /// An empty ring of capacity `max_size`.
    pub fn new(max_size: usize) -> (s: Self)
        ensures
            s.wf(),
            s.held() == Seq::<Alert>::empty(),
            s.capacity() == max_size,
    {
        AlertStore { alerts: VecDeque::with_capacity(max_size), max_size }
    }

    /// Adds an alert, dropping the oldest when full.
    pub fn push(&mut self, alert: Alert)
        requires
            old(self).wf(),
        ensures
            final(self).wf(),
            final(self).capacity() == old(self).capacity(),
            final(self).held() == pushed(old(self).held(), old(self).capacity(), alert),
    {
        if self.alerts.len() >= self.max_size {
            self.alerts.pop_front();
        }
        self.alerts.push_back(alert);
    }

    /// Up to `n` alerts, newest first.
    pub fn recent(&self, n: usize) -> (r: Vec<&Alert>)
        ensures
            r@.len() == if n < self.held().len() {
                n as nat
            } else {
                self.held().len()
            },
            forall|i: int| 0 <= i < r@.len() ==> *r@[i] == self.held()[self.held().len() - 1 - i],
    {
        let len = self.alerts.len();
        let mut r: Vec<&Alert> = Vec::new();
        let mut i: usize = 0;
        while i < n && i < len
            invariant
                len == self.alerts@.len(),
                i <= len,
                i <= n,
                r@.len() == i,
                forall|j: int| 0 <= j < i ==> *r@[j] == self.alerts@[len - 1 - j],
            decreases len - i,
        {
            r.push(&self.alerts[len - 1 - i]);
            i += 1;
        }
        r
    }
}

} // verus!
