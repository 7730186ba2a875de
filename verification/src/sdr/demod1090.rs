//! 1090 MHz Mode-S demodulator: raw I/Q samples in, validated frames out.
use vstd::prelude::*;
use crate::crc::{
    checksum, flip_bit, repairs, lowest_repair, lemma_lowest_repair_unique, modes_checksum,
    modes_fix_single_bit,
};
use crate::sdr::mag::{MagLut, iq_to_magnitude};
use crate::sdr::preamble::{preamble_at, pulse_sum, detect_preamble};
use crate::sdr::slicer::{frame_byte, bit_confidence, slice_manchester};

verus! {

/// A frame the demodulator accepted: the Mode-S message bytes (7 or 14) and
/// the signal level (mean pulse magnitude / 256, at most 255).
pub struct DemodFrame {
    pub payload: Vec<u8>,
    pub signal: u8,
}

/// How validation judged a sliced frame.
pub enum Verdict {
    Intact,
    Repaired,
    Rejected,
}

/// The 14 sliced bytes at `off`.
pub open spec fn sliced_frame(m: Seq<u16>, off: int) -> Seq<u8> {
    Seq::new(14, |j: int| frame_byte(m, off, j) as u8)
}

/// The 112 bit confidences at `off`.
pub open spec fn sliced_confidence(m: Seq<u16>, off: int) -> Seq<u8> {
    Seq::new(112, |k: int| bit_confidence(m, off, k) as u8)
}

/// Frame length in bits: 112 when the first bit is set (DF 16 and above), else 56.
pub open spec fn sliced_bits(m: Seq<u16>, off: int) -> nat {
    if sliced_frame(m, off)[0] >= 128 {
        112
    } else {
        56
    }
}

/// Sum of the first `n` confidences.
pub open spec fn confidence_sum(conf: Seq<u8>, n: nat) -> nat
    decreases n,
{
    if n == 0 {
        0
    } else {
        confidence_sum(conf, (n - 1) as nat) + conf[n - 1] as nat
    }
}

/// Downlink formats accepted on address/parity alone, with high confidence.
pub open spec fn is_ap_format(df: u8) -> bool {
    df == 0 || df == 4 || df == 5 || df == 16 || df == 20 || df == 21
}

/// The verdict on a message (the first `bits / 8` sliced bytes) and the
/// message as accepted: mean confidence below 40 rejects; DF11/17/18 need a
/// zero residual, DF17/18 may have one bit repaired; DF0/4/5/16/20/21 need a
/// mean confidence of 80 and an overlaid address other than 0 and 0xffffff.
pub open spec fn validate(msg: Seq<u8>, conf: Seq<u8>, bits: nat) -> (Verdict, Seq<u8>) {
    let avg = confidence_sum(conf, bits) / bits;
    let crc = checksum(msg);
    let df = msg[0] >> 3u8;
    if avg < 40 {
        (Verdict::Rejected, msg)
    } else if df == 11 || df == 17 || df == 18 {
        if crc == 0 {
            (Verdict::Intact, msg)
        } else if (df == 17 || df == 18) && exists|b: int| repairs(msg, b) {
            (Verdict::Repaired, flip_bit(msg, lowest_repair(msg)))
        } else {
            (Verdict::Rejected, msg)
        }
    } else if is_ap_format(df) && avg >= 80 && (crc & 0xffffff) != 0 && (crc & 0xffffff) != 0xffffff {
        (Verdict::Intact, msg)
    } else {
        (Verdict::Rejected, msg)
    }
}

/// Signal level of the preamble at `off`.
pub open spec fn signal_level(m: Seq<u16>, off: int) -> u8 {
    let s = pulse_sum(m, off) / 4 / 256;
    if s <= 255 {
        s as u8
    } else {
        255
    }
}

/// What scanning the magnitudes from sample `off` on yields: the accepted
/// frames in order, and the numbers of intact, repaired and rejected ones.
/// After an accepted frame the scan resumes behind it; otherwise one
/// sample later.
pub open spec fn scan_from(m: Seq<u16>, off: nat) -> (Seq<(Seq<u8>, u8)>, nat, nat, nat)
    decreases m.len() - off,
{
    if off + 240 > m.len() {
        (Seq::empty(), 0, 0, 0)
    } else if !preamble_at(m, off as int) {
        scan_from(m, off + 1)
    } else {
        let bits = sliced_bits(m, off as int);
        let msg = sliced_frame(m, off as int).take((bits / 8) as int);
        let (v, out) = validate(msg, sliced_confidence(m, off as int), bits);
        match v {
            Verdict::Rejected => {
                let r = scan_from(m, off + 1);
                (r.0, r.1, r.2, r.3 + 1)
            },
            Verdict::Intact => {
                let r = scan_from(m, off + 16 + 2 * bits);
                (seq![(out, signal_level(m, off as int))] + r.0, r.1 + 1, r.2, r.3)
            },
            Verdict::Repaired => {
                let r = scan_from(m, off + 16 + 2 * bits);
                (seq![(out, signal_level(m, off as int))] + r.0, r.1, r.2 + 1, r.3)
            },
        }
    }
}

/// The magnitudes the lookup table gives for the first `n` I/Q pairs.
pub open spec fn magnitudes(lut: MagLut, iq: Seq<u8>, n: nat) -> Seq<u16> {
    Seq::new(n, |k: int| lut.entry(iq[2 * k], iq[2 * k + 1]))
}

/// Views of demodulated frames as (bytes, signal) pairs.
pub open spec fn frames_view(v: Seq<DemodFrame>) -> Seq<(Seq<u8>, u8)> {
    v.map_values(|f: DemodFrame| (f.payload@, f.signal))
}

/// Mode-S demodulator with its lookup table, scratch buffer and counters.
pub struct Demod1090 {
    lut: MagLut,
    mag_buf: Vec<u16>,
    pub frames_ok: u64,
    pub frames_fixed: u64,
    pub frames_rejected: u64,
}

impl Demod1090 {
    /// The lookup table is complete.
    pub closed spec fn wf(&self) -> bool {
        self.lut.wf()
    }

    /// The lookup table in use.
    pub closed spec fn table(&self) -> MagLut {
        self.lut
    }

    /// Frames accepted with a zero residual (or a valid overlaid address).
    pub closed spec fn ok_count(&self) -> u64 {
        self.frames_ok
    }

    /// Frames accepted after a one-bit repair.
    pub closed spec fn fixed_count(&self) -> u64 {
        self.frames_fixed
    }

    /// Frames whose preamble was found but which failed validation.
    pub closed spec fn rejected_count(&self) -> u64 {
        self.frames_rejected
    }

    /// A demodulator with zeroed counters.
    pub fn new() -> (d: Self)
        ensures
            d.wf(),
            d.ok_count() == 0,
            d.fixed_count() == 0,
            d.rejected_count() == 0,
    {
        Demod1090 {
            lut: MagLut::new(),
            mag_buf: vec![0u16; 128 * 1024],
            frames_ok: 0,
            frames_fixed: 0,
            frames_rejected: 0,
        }
    }

    /// Demodulates one chunk of interleaved I/Q bytes: returns the frames
    /// found, in order, and adds the intact, repaired and rejected counts to
    /// the counters.
    pub fn process_chunk(&mut self, iq: &[u8]) -> (frames: Vec<DemodFrame>)
        requires
            old(self).wf(),
            old(self).ok_count() + iq@.len() <= u64::MAX,
            old(self).fixed_count() + iq@.len() <= u64::MAX,
            old(self).rejected_count() + iq@.len() <= u64::MAX,
        ensures
            final(self).wf(),
            final(self).table() == old(self).table(),
            ({
                let s = scan_from(magnitudes(old(self).table(), iq@, iq@.len() / 2), 0);
                &&& frames_view(frames@) == s.0
                &&& final(self).ok_count() == old(self).ok_count() + s.1
                &&& final(self).fixed_count() == old(self).fixed_count() + s.2
                &&& final(self).rejected_count() == old(self).rejected_count() + s.3
            }),
    {
        let samples = iq.len() / 2;
        self.mag_buf.resize(samples, 0);
        iq_to_magnitude(&self.lut, iq, self.mag_buf.as_mut_slice());
        assert(self.mag_buf@ =~= magnitudes(self.lut, iq@, samples as nat));
        let (frames, ok, fixed, rejected) = scan_frames(self.mag_buf.as_slice());
        self.frames_ok = self.frames_ok + ok;
        self.frames_fixed = self.frames_fixed + fixed;
        self.frames_rejected = self.frames_rejected + rejected;
        frames
    }
}

/// Copies the first `n` bytes of a sliced frame.
fn frame_prefix(frame: &[u8; 14], n: usize) -> (v: Vec<u8>)
    requires
        n <= 14,
    ensures
        v@ == frame@.take(n as int),
{
    let mut v: Vec<u8> = Vec::with_capacity(n);
    let mut i: usize = 0;
    while i < n
        invariant
            n <= 14,
            i <= n,
            v@ == frame@.take(i as int),
        decreases n - i,
    {
        v.push(frame[i]);
        assert(frame@.take(i as int).push(frame@[i as int]) =~= frame@.take(i + 1));
        i += 1;
    }
    v
}

/// Sum of the first `n` confidences.
fn sum_confidence(conf: &[u8; 112], n: usize) -> (s: u32)
    requires
        n <= 112,
    ensures
        s == confidence_sum(conf@, n as nat),
{
    let mut s: u32 = 0;
    let mut i: usize = 0;
    while i < n
        invariant
            n <= 112,
            i <= n,
            s == confidence_sum(conf@, i as nat),
            s <= 255 * i,
        decreases n - i,
    {
        s = s + conf[i] as u32;
        i += 1;
    }
    s
}

/// Validates a sliced frame, repairing one bit of a DF17/18 message when
/// that gives a zero residual.
fn try_validate(frame: &[u8; 14], bits: usize, confidence: &[u8; 112]) -> (r: (Verdict, Vec<u8>))
    requires
        bits == 56 || bits == 112,
    ensures
        ({
            let (v, out) = validate(frame@.take((bits / 8) as int), confidence@, bits as nat);
            &&& r.0 == v
            &&& r.1@ == out
        }),
{
    let mut msg = frame_prefix(frame, bits / 8);
    let ghost orig = msg@;
    let avg_conf = sum_confidence(confidence, bits) / (bits as u32);
    if avg_conf < 40 {
        return (Verdict::Rejected, msg);
    }
    let crc = modes_checksum(msg.as_slice());
    let df = msg[0] >> 3;
    if df == 11 || df == 17 || df == 18 {
        if crc == 0 {
            return (Verdict::Intact, msg);
        }
        if df == 17 || df == 18 {
            let fixed = modes_fix_single_bit(msg.as_mut_slice());
            if fixed {
                proof {
                    let b = choose|b: int|
                        {
                            &&& repairs(orig, b)
                            &&& msg@ == flip_bit(orig, b)
                            &&& forall|c: int| 0 <= c < b ==> !repairs(orig, c)
                        };
                    lemma_lowest_repair_unique(orig, b);
                }
                return (Verdict::Repaired, msg);
            }
        }
        return (Verdict::Rejected, msg);
    }
    if df == 0 || df == 4 || df == 5 || df == 16 || df == 20 || df == 21 {
        if avg_conf < 80 {
            return (Verdict::Rejected, msg);
        }
        let icao = crc & 0xFFFFFF;
        if icao != 0 && icao != 0xFFFFFF {
            return (Verdict::Intact, msg);
        }
    }
    (Verdict::Rejected, msg)
}

/// One scan step at `offset` (where a whole frame fits): the frame accepted
/// there, if any, one-or-zero increments of the intact, repaired and
/// rejected counts, and the offset the scan resumes at.
fn scan_step(mag: &[u16], offset: usize) -> (r: (Option<DemodFrame>, u64, u64, u64, usize))
    requires
        offset + 240 <= mag.len(),
    ensures
        offset < r.4 <= mag@.len(),
        r.1 + r.2 + r.3 <= 1,
        ({
            let s = scan_from(mag@, offset as nat);
            let t = scan_from(mag@, r.4 as nat);
            &&& s.0 == (match r.0 {
                Some(f) => seq![(f.payload@, f.signal)] + t.0,
                None => t.0,
            })
            &&& s.1 == t.1 + r.1
            &&& s.2 == t.2 + r.2
            &&& s.3 == t.3 + r.3
        }),
{
    let ghost m = mag@;
    let ghost off = offset as nat;
    if !detect_preamble(mag, offset) {
        return (None, 0, 0, 0, offset + 1);
    }
    let result = slice_manchester(mag, offset);
    proof {
        assert(result.frame@ =~= sliced_frame(m, off as int));
        assert(result.confidence@ =~= sliced_confidence(m, off as int));
    }
    let signal_sum = mag[offset] as u32 + mag[offset + 2] as u32 + mag[offset + 7] as u32
        + mag[offset + 9] as u32;
    let quarter = signal_sum / 4 / 256;
    let signal: u8 = if quarter <= 255 {
        quarter as u8
    } else {
        255
    };
    let bits = result.bits;
    let (verdict, payload) = try_validate(&result.frame, bits, &result.confidence);
    match verdict {
        Verdict::Rejected => (None, 0, 0, 1, offset + 1),
        Verdict::Intact => (Some(DemodFrame { payload, signal }), 1, 0, 0, offset + 16 + bits * 2),
        Verdict::Repaired => (Some(DemodFrame { payload, signal }), 0, 1, 0, offset + 16 + bits * 2),
    }
}

/// Scans magnitude samples for frames.
fn scan_frames(mag: &[u16]) -> (r: (Vec<DemodFrame>, u64, u64, u64))
    ensures
        ({
            let s = scan_from(mag@, 0);
            &&& frames_view(r.0@) == s.0
            &&& r.1 == s.1
            &&& r.2 == s.2
            &&& r.3 == s.3
        }),
        r.1 + r.2 + r.3 <= mag@.len(),
{
    let samples = mag.len();
    let mut frames: Vec<DemodFrame> = Vec::new();
    let mut ok: u64 = 0;
    let mut fixed: u64 = 0;
    let mut rejected: u64 = 0;
    let mut offset: usize = 0;
    while samples - offset >= 240
        invariant
            samples == mag@.len(),
            offset <= samples,
            ok + fixed + rejected <= offset,
            ({
                let t = scan_from(mag@, 0);
                let s = scan_from(mag@, offset as nat);
                &&& t.0 == frames_view(frames@) + s.0
                &&& t.1 == ok + s.1
                &&& t.2 == fixed + s.2
                &&& t.3 == rejected + s.3
            }),
        decreases samples - offset,
    {
        let ghost before = frames@;
        let (found, inc_ok, inc_fixed, inc_rejected, next) = scan_step(mag, offset);
        ok = ok + inc_ok;
        fixed = fixed + inc_fixed;
        rejected = rejected + inc_rejected;
        match found {
            Some(f) => {
                let ghost fv = (f.payload@, f.signal);
                frames.push(f);
                proof {
                    assert(frames_view(frames@) =~= frames_view(before).push(fv));
                    let t = scan_from(mag@, next as nat);
                    assert(frames_view(before) + (seq![fv] + t.0) =~= frames_view(before).push(fv) + t.0);
                }
            },
            None => {},
        }
        offset = next;
    }
    assert(frames_view(frames@) + Seq::<(Seq<u8>, u8)>::empty() =~= frames_view(frames@));
    (frames, ok, fixed, rejected)
}

/// The 48-bit Beast timestamp of a time in microseconds: a 12 MHz count,
/// wrapping.
pub open spec fn beast_ticks(micros: u64) -> u64 {
    ((micros * 12) % 0x1_0000_0000_0000_0000) as u64 & 0xFFFF_FFFF_FFFFu64
}

/// The 12 MHz, 48-bit Beast timestamp of a time in microseconds.
pub fn beast_timestamp(micros: u64) -> (ts: u64)
    ensures
        ts == beast_ticks(micros),
        ts < 0x1_0000_0000_0000,
{
    let t = micros.wrapping_mul(12);
    assert(t & 0xFFFF_FFFF_FFFFu64 < 0x1_0000_0000_0000) by (bit_vector);
    t & 0xFFFF_FFFF_FFFF
}

/// A demodulated frame as a Beast record, not escaped: 0x1a, the type
/// (0x33 for 14 bytes, else 0x32), the 48-bit timestamp big-endian, the
/// signal byte, then the message.
pub open spec fn beast_record(ts: u64, signal: u8, msg: Seq<u8>) -> Seq<u8> {
    seq![
        0x1au8,
        if msg.len() == 14 {
            0x33u8
        } else {
            0x32u8
        },
        (ts >> 40u64) as u8,
        (ts >> 32u64) as u8,
        (ts >> 24u64) as u8,
        (ts >> 16u64) as u8,
        (ts >> 8u64) as u8,
        ts as u8,
        signal,
    ] + msg
}

/// The Beast record of a demodulated frame.
pub fn encode_beast_frame(ts: u64, signal: u8, msg: &[u8]) -> (r: Vec<u8>)
    ensures
        r@ == beast_record(ts, signal, msg@),
{
    let mut r: Vec<u8> = Vec::new();
    r.push(0x1a);
    r.push(if msg.len() == 14 {
        0x33
    } else {
        0x32
    });
    r.push((ts >> 40) as u8);
    r.push((ts >> 32) as u8);
    r.push((ts >> 24) as u8);
    r.push((ts >> 16) as u8);
    r.push((ts >> 8) as u8);
    r.push(ts as u8);
    r.push(signal);
    let ghost head = r@;
    let mut i: usize = 0;
    while i < msg.len()
        invariant
            i <= msg@.len(),
            r@ == head + msg@.take(i as int),
        decreases msg@.len() - i,
    {
        r.push(msg[i]);
        assert(head + msg@.take(i + 1) =~= (head + msg@.take(i as int)).push(msg@[i as int]));
        i += 1;
    }
    assert(msg@.take(msg@.len() as int) =~= msg@);
    assert(r@ =~= beast_record(ts, signal, msg@));
    r
}

} // verus!
