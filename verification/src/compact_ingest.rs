//! Framing of the compact demodulator stream.
//!
//! A frame on the wire is `[len][signal][payload: 7 or 14 bytes]`, optionally
//! followed by one confidence byte: `len` is 8 or 15 without, 9 or 16 with
//! confidence, and the frame occupies `1 + len` bytes. A first byte that is
//! no valid length is dropped.
use vstd::prelude::*;

verus! {

/// A frame read from the compact stream.
pub struct CompactFrame {
    pub signal: u8,
    pub payload: Vec<u8>,
    pub confidence: Option<u8>,
}

/// Payload length and confidence flag of a valid length byte.
pub open spec fn compact_layout(len: u8) -> Option<(nat, bool)> {
    if len == 8 {
        Some((7, false))
    } else if len == 9 {
        Some((7, true))
    } else if len == 15 {
        Some((14, false))
    } else if len == 16 {
        Some((14, true))
    } else {
        None
    }
}

/// The frame a complete wire frame `w` holds.
pub open spec fn compact_frame_of(w: Seq<u8>, payload_len: nat, has_conf: bool) -> (
    u8,
    Seq<u8>,
    Option<u8>,
) {
    (
        w[1],
        w.subrange(2, 2 + payload_len as int),
        if has_conf {
            Some(w[2 + payload_len as int])
        } else {
            None
        },
    )
}

/// One byte into the framer holding `pending`: the new pending bytes and
/// the frame completed, if any.
pub open spec fn compact_step(pending: Seq<u8>, b: u8) -> (Seq<u8>, Option<(u8, Seq<u8>, Option<u8>)>) {
    let p = pending.push(b);
    match compact_layout(p[0]) {
        None => (Seq::empty(), None),
        Some((payload_len, has_conf)) => if p.len() >= 1 + p[0] {
            (Seq::empty(), Some(compact_frame_of(p, payload_len, has_conf)))
        } else {
            (p, None)
        },
    }
}

/// The first `n` bytes of `data` into the framer holding `pending`: the
/// pending bytes after and the frames completed, in order.
pub open spec fn compact_run(pending: Seq<u8>, data: Seq<u8>, n: nat) -> (
    Seq<u8>,
    Seq<(u8, Seq<u8>, Option<u8>)>,
)
    decreases n,
{
    if n == 0 {
        (pending, Seq::empty())
    } else {
        let (p, frames) = compact_run(pending, data, (n - 1) as nat);
        let (p2, f) = compact_step(p, data[n - 1]);
        (
            p2,
            match f {
                Some(fr) => frames.push(fr),
                None => frames,
            },
        )
    }
}

proof fn lemma_partial_frame(w: Seq<u8>, n: nat)
    requires
        w.len() > 0,
        compact_layout(w[0]) is Some,
        w.len() == 1 + w[0],
        0 < n < w.len(),
    ensures
        compact_run(Seq::empty(), w, n) == (w.take(n as int), Seq::<(u8, Seq<u8>, Option<u8>)>::empty()),
    decreases n,
{
    if n > 1 {
        lemma_partial_frame(w, (n - 1) as nat);
        let p = w.take(n - 1).push(w[n - 1]);
        assert(p =~= w.take(n as int));
        assert(p[0] == w[0]);
        assert(compact_step(w.take(n - 1), w[n - 1]) == (w.take(n as int), None::<(u8, Seq<u8>, Option<u8>)>));
        assert(compact_run(Seq::empty(), w, (n - 1) as nat) == (w.take(n - 1), Seq::<(u8, Seq<u8>, Option<u8>)>::empty()));
    } else {
        let p = Seq::<u8>::empty().push(w[0]);
        assert(p =~= w.take(1));
        assert(p[0] == w[0]);
        assert(compact_step(Seq::empty(), w[0]) == (w.take(1), None::<(u8, Seq<u8>, Option<u8>)>));
        assert(compact_run(Seq::empty(), w, 0) == (Seq::<u8>::empty(), Seq::<(u8, Seq<u8>, Option<u8>)>::empty()));
    }
}

/// One complete wire frame fed to an empty framer comes out as that
/// frame, and nothing is left pending.
pub proof fn lemma_whole_frame(w: Seq<u8>)
    requires
        w.len() > 0,
        compact_layout(w[0]) is Some,
        w.len() == 1 + w[0],
    ensures
        ({
            let (payload_len, has_conf) = compact_layout(w[0]).unwrap();
            compact_run(Seq::empty(), w, w.len()) == (
                Seq::<u8>::empty(),
                seq![compact_frame_of(w, payload_len, has_conf)],
            )
        }),
{
    let n = w.len();
    lemma_partial_frame(w, (n - 1) as nat);
    let p = w.take(n - 1).push(w[n - 1]);
    assert(p =~= w);
    assert(Seq::<(u8, Seq<u8>, Option<u8>)>::empty().push(
        compact_frame_of(w, compact_layout(w[0]).unwrap().0, compact_layout(w[0]).unwrap().1),
    ) =~= seq![compact_frame_of(w, compact_layout(w[0]).unwrap().0, compact_layout(w[0]).unwrap().1)]);
}

proof fn lemma_run_prefix(pending: Seq<u8>, d1: Seq<u8>, d2: Seq<u8>, n: nat)
    requires
        n <= d1.len(),
        n <= d2.len(),
        d1.take(n as int) == d2.take(n as int),
    ensures
        compact_run(pending, d1, n) == compact_run(pending, d2, n),
    decreases n,
{
    if n > 0 {
        assert(d1.take(n - 1) =~= d1.take(n as int).take(n - 1));
        assert(d2.take(n - 1) =~= d2.take(n as int).take(n - 1));
        assert(d1.take(n as int)[n - 1] == d1[n - 1]);
        assert(d2.take(n as int)[n - 1] == d2[n - 1]);
        lemma_run_prefix(pending, d1, d2, (n - 1) as nat);
    }
}

proof fn lemma_run_concat(pending: Seq<u8>, a: Seq<u8>, b: Seq<u8>, k: nat)
    requires
        k <= b.len(),
    ensures
        ({
            let (p1, f1) = compact_run(pending, a, a.len());
            let (p2, f2) = compact_run(p1, b, k);
            compact_run(pending, a + b, a.len() + k) == (p2, f1 + f2)
        }),
    decreases k,
{
    let (p1, f1) = compact_run(pending, a, a.len());
    if k == 0 {
        assert((a + b).take(a.len() as int) =~= a.take(a.len() as int));
        lemma_run_prefix(pending, a + b, a, a.len());
        assert(f1 + Seq::<(u8, Seq<u8>, Option<u8>)>::empty() =~= f1);
    } else {
        lemma_run_concat(pending, a, b, (k - 1) as nat);
        let (q, g) = compact_run(p1, b, (k - 1) as nat);
        assert((a + b)[a.len() + k - 1] == b[k - 1]);
        let (q2, fr) = compact_step(q, b[k - 1]);
        match fr {
            Some(x) => {
                assert((f1 + g).push(x) =~= f1 + g.push(x));
            },
            None => {},
        }
    }
}

/// Feeding `a` and then `b` gives the frames of `a` followed by those of
/// `b`, and leaves the same pending bytes, as feeding `a` and `b` joined.
pub proof fn lemma_feed_split(pending: Seq<u8>, a: Seq<u8>, b: Seq<u8>)
    ensures
        ({
            let (p1, f1) = compact_run(pending, a, a.len());
            let (p2, f2) = compact_run(p1, b, b.len());
            compact_run(pending, a + b, (a + b).len()) == (p2, f1 + f2)
        }),
{
    lemma_run_concat(pending, a, b, b.len());
}

/// Every frame the framer completes carries a payload of 7 or 14 bytes.
pub proof fn lemma_payload_sizes(pending: Seq<u8>, data: Seq<u8>, n: nat)
    ensures
        forall|i: int|
            0 <= i < compact_run(pending, data, n).1.len() ==> (#[trigger] compact_run(
                pending,
                data,
                n,
            ).1[i]).1.len() == 7 || compact_run(pending, data, n).1[i].1.len() == 14,
    decreases n,
{
    if n > 0 {
        lemma_payload_sizes(pending, data, (n - 1) as nat);
        let (p, frames) = compact_run(pending, data, (n - 1) as nat);
        let q = p.push(data[n - 1]);
        match compact_layout(q[0]) {
            Some((payload_len, has_conf)) => {
                if q.len() >= 1 + q[0] {
                    let fr = compact_frame_of(q, payload_len, has_conf);
                    assert(fr.1.len() == payload_len);
                    assert forall|i: int| 0 <= i < frames.push(fr).len() implies #[trigger] frames.push(
                        fr,
                    )[i].1.len() == 7 || frames.push(fr)[i].1.len() == 14 by {
                        if i < frames.len() {
                            assert(frames.push(fr)[i] == frames[i]);
                        }
                    }
                }
            },
            None => {},
        }
    }
}

/// Views of frames as (signal, payload, confidence).
pub open spec fn compact_frames_view(v: Seq<CompactFrame>) -> Seq<(u8, Seq<u8>, Option<u8>)> {
    v.map_values(|f: CompactFrame| (f.signal, f.payload@, f.confidence))
}

/// Incremental framer of the compact stream.
pub struct CompactFramer {
    buf: [u8; 256],
    pos: usize,
}

impl CompactFramer {
    /// The bytes of the frame begun but not completed.
    pub closed spec fn pending(&self) -> Seq<u8> {
        self.buf@.take(self.pos as int)
    }

    /// A started frame has a valid length byte and is not yet complete.
    pub closed spec fn wf(&self) -> bool {
        &&& self.pos < 17
        &&& self.pos > 0 ==> compact_layout(self.buf@[0]) is Some && self.pos < 1 + self.buf@[0]
    }

    /// An empty framer.
    pub fn new() -> (f: Self)
        ensures
            f.wf(),
            f.pending() == Seq::<u8>::empty(),
    {
        CompactFramer { buf: [0u8; 256], pos: 0 }
    }

    /// Feeds received bytes; returns the frames completed, in order.
    pub fn feed(&mut self, data: &[u8]) -> (frames: Vec<CompactFrame>)
        requires
            old(self).wf(),
        ensures
            final(self).wf(),
            (final(self).pending(), compact_frames_view(frames@)) == compact_run(
                old(self).pending(),
                data@,
                data@.len(),
            ),
    {
        let mut frames: Vec<CompactFrame> = Vec::new();
        let mut i: usize = 0;
        while i < data.len()
            invariant
                self.wf(),
                i <= data@.len(),
                (self.pending(), compact_frames_view(frames@)) == compact_run(
                    old(self).pending(),
                    data@,
                    i as nat,
                ),
            decreases data@.len() - i,
        {
            let ghost before = frames@;
            let ghost p0 = self.pending();
            let byte = data[i];
            self.buf[self.pos] = byte;
            self.pos = self.pos + 1;
            assert(self.pending() =~= p0.push(byte));
            let frame_len = self.buf[0];
            let (payload_len, has_conf): (usize, bool) = if frame_len == 8 {
                (7, false)
            } else if frame_len == 9 {
                (7, true)
            } else if frame_len == 15 {
                (14, false)
            } else if frame_len == 16 {
                (14, true)
            } else {
                self.pos = 0;
                assert(self.pending() =~= Seq::<u8>::empty());
                i += 1;
                continue;
            };
            let wire_len = 1 + frame_len as usize;
            if self.pos >= wire_len {
                let signal = self.buf[1];
                let mut payload: Vec<u8> = Vec::with_capacity(payload_len);
                let mut k: usize = 0;
                while k < payload_len
                    invariant
                        payload_len <= 14,
                        k <= payload_len,
                        payload@ == self.buf@.subrange(2, 2 + k),
                    decreases payload_len - k,
                {
                    payload.push(self.buf[2 + k]);
                    assert(self.buf@.subrange(2, 2 + k).push(self.buf@[2 + k]) =~= self.buf@.subrange(
                        2,
                        2 + k + 1,
                    ));
                    k += 1;
                }
                let confidence = if has_conf {
                    Some(self.buf[2 + payload_len])
                } else {
                    None
                };
                let f = CompactFrame { signal, payload, confidence };
                let ghost fv = (f.signal, f.payload@, f.confidence);
                assert(fv == compact_frame_of(self.pending(), payload_len as nat, has_conf));
                frames.push(f);
                assert(compact_frames_view(frames@) =~= compact_frames_view(before).push(fv));
                self.pos = 0;
                assert(self.pending() =~= Seq::<u8>::empty());
            }
            if self.pos >= 256 {
                self.pos = 0;
            }
            i += 1;
        }
        frames
    }
}

} // verus!
