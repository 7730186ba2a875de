//! The stand-alone SDR test tool's demodulation logic: its own magnitude
//! table (unscaled), a simpler preamble test, a bit-serial CRC, and the AIS
//! HDLC decoder state machine that turns sliced levels into `!AIVDM`
//! sentences.
use vstd::prelude::*;
use crate::crc::flip_bit;
use crate::nmea::{aivdm, aivdm_sentence, armor};
use crate::sdr::demod1090::{sliced_bits, sliced_frame};
use crate::sdr::slicer::{bit_sample, byte_at, frame_byte};
use crate::text::string_push;

verus! {

// ===== Magnitude table =====

/// `m` is the distance of `(i, q)` from (127.5, 127.5), rounded down.
pub open spec fn is_magnitude(i: int, q: int, m: int) -> bool {
    let d = (2 * i - 255) * (2 * i - 255) + (2 * q - 255) * (2 * q - 255);
    &&& 0 <= m
    &&& 4 * m * m <= d
    &&& d < 4 * (m + 1) * (m + 1)
}

/// Unscaled magnitude of every 8-bit I/Q pair.
pub struct MagLut {
    table: Vec<u16>,
}

fn magnitude_of(i: u32, q: u32) -> (m: u16)
    requires
        i < 256,
        q < 256,
    ensures
        is_magnitude(i as int, q as int, m as int),
{
    let di: i64 = 2 * (i as i64) - 255;
    let dq: i64 = 2 * (q as i64) - 255;
    assert(0 <= di * di <= 65025) by (nonlinear_arith)
        requires
            -255 <= di <= 255,
    ;
    assert(0 <= dq * dq <= 65025) by (nonlinear_arith)
        requires
            -255 <= dq <= 255,
    ;
    let d: u64 = (di * di + dq * dq) as u64;
    let mut lo: u64 = 0;
    let mut hi: u64 = 256;
    while hi - lo > 1
        invariant
            lo < hi <= 256,
            d == (2 * i - 255) * (2 * i - 255) + (2 * q - 255) * (2 * q - 255),
            d <= 130050,
            4 * lo * lo <= d,
            d < 4 * hi * hi,
        decreases hi - lo,
    {
        let mid = lo + (hi - lo) / 2;
        assert(4 * mid * mid <= 4 * 256 * 256) by (nonlinear_arith)
            requires
                mid < 256,
        ;
        if 4 * mid * mid <= d {
            lo = mid;
        } else {
            hi = mid;
        }
    }
    lo as u16
}

impl MagLut {
    /// Every entry is the magnitude of its pair.
    pub closed spec fn wf(&self) -> bool {
        &&& self.table@.len() == 65536
        &&& forall|k: int| 0 <= k < 65536 ==> is_magnitude(k / 256, k % 256, #[trigger] self.table@[k] as int)
    }

    /// The entry for the pair `(i, q)`.
    pub closed spec fn entry(&self, i: u8, q: u8) -> u16 {
        self.table@[i * 256 + q]
    }

    /// Builds the table.
    pub fn new() -> (lut: Self)
        ensures
            lut.wf(),
    {
        let mut table: Vec<u16> = Vec::with_capacity(65536);
        let mut k: u32 = 0;
        while k < 65536
            invariant
                k <= 65536,
                table@.len() == k,
                forall|j: int| 0 <= j < k ==> is_magnitude(j / 256, j % 256, #[trigger] table@[j] as int),
            decreases 65536 - k,
        {
            table.push(magnitude_of(k / 256, k % 256));
            k += 1;
        }
        MagLut { table }
    }

    /// Converts interleaved I/Q bytes to magnitudes, one per pair.
    pub fn convert(&self, iq: &[u8], mag: &mut [u16])
        requires
            self.wf(),
            iq@.len() >= 2 * old(mag)@.len(),
        ensures
            final(mag)@.len() == old(mag)@.len(),
            forall|k: int|
                0 <= k < final(mag)@.len() ==> #[trigger] final(mag)@[k] == self.entry(
                    iq@[2 * k],
                    iq@[2 * k + 1],
                ),
            forall|k: int|
                0 <= k < final(mag)@.len() ==> is_magnitude(
                    iq@[2 * k] as int,
                    iq@[2 * k + 1] as int,
                    #[trigger] final(mag)@[k] as int,
                ),
    {
        let n = mag.len();
        let iq_len = iq.len();
        let mut k: usize = 0;
        while k < n
            invariant
                self.wf(),
                iq_len == iq@.len(),
                n == mag@.len(),
                iq@.len() >= 2 * n,
                k <= n,
                forall|j: int| 0 <= j < k ==> #[trigger] mag@[j] == self.entry(iq@[2 * j], iq@[2 * j + 1]),
                forall|j: int|
                    0 <= j < k ==> is_magnitude(iq@[2 * j] as int, iq@[2 * j + 1] as int, #[trigger] mag@[j] as int),
            decreases n - k,
        {
            let a = iq[2 * k];
            let b = iq[2 * k + 1];
            let idx = (a as usize) * 256 + (b as usize);
            assert((a as int * 256 + b as int) / 256 == a as int);
            assert((a as int * 256 + b as int) % 256 == b as int);
            mag[k] = self.table[idx];
            k += 1;
        }
    }
}

// ===== 1090 MHz =====

/// The tool's preamble test: the mean of the four pulse samples exceeds
/// twice the mean of six valley samples, and exceeds 10.
pub open spec fn tool_preamble(m: Seq<u16>, off: int) -> bool {
    let high = (m[off] + m[off + 2] + m[off + 7] + m[off + 9]) / 4;
    let low = (m[off + 1] + m[off + 3] + m[off + 4] + m[off + 5] + m[off + 6] + m[off + 8]) / 6;
    off + 240 <= m.len() && high > 2 * low && high > 10
}

/// Detects a preamble at `off` the tool's way.
pub fn detect_preamble(mag: &[u16], off: usize) -> (found: bool)
    requires
        off + 240 <= usize::MAX,
    ensures
        found == tool_preamble(mag@, off as int),
{
    if off + 16 + 224 > mag.len() {
        return false;
    }
    let high = (mag[off] as u32 + mag[off + 2] as u32 + mag[off + 7] as u32 + mag[off + 9] as u32)
        / 4;
    let low = (mag[off + 1] as u32 + mag[off + 3] as u32 + mag[off + 4] as u32 + mag[off + 5] as u32
        + mag[off + 6] as u32 + mag[off + 8] as u32) / 6;
    high > 2 * low && high > 10
}

/// One bit of the tool's CRC: the register is tested against bit
/// `bit + 16` of the shifted byte (so the byte's bits enter least
/// significant first).
pub open spec fn tool_crc_bit(crc: u32, byte: u32, bit: u32) -> u32 {
    (if (crc ^ (byte << ((bit + 16) as u32))) & 0x800000u32 != 0 {
        (crc << 1u32) ^ 0xFFF409u32
    } else {
        crc << 1u32
    }) & 0xFFFFFFu32
}

/// The register after one byte: bits 7 down to 0.
pub open spec fn tool_crc_byte(crc: u32, byte: u32) -> u32 {
    tool_crc_bit(
        tool_crc_bit(
            tool_crc_bit(
                tool_crc_bit(
                    tool_crc_bit(
                        tool_crc_bit(tool_crc_bit(tool_crc_bit(crc, byte, 7), byte, 6), byte, 5),
                        byte,
                        4,
                    ),
                    byte,
                    3,
                ),
                byte,
                2,
            ),
            byte,
            1,
        ),
        byte,
        0,
    )
}

/// The register after the first `n` bytes.
pub open spec fn tool_crc_register(msg: Seq<u8>, n: nat) -> u32
    decreases n,
{
    if n == 0 {
        0
    } else {
        tool_crc_byte(tool_crc_register(msg, (n - 1) as nat), msg[n - 1] as u32)
    }
}

/// The tool's residual: the register over all but the last three bytes,
/// XORed with them; 0xFFFFFF for messages under three bytes.
pub open spec fn tool_crc(msg: Seq<u8>) -> u32 {
    let n = msg.len();
    if n < 3 {
        0xFFFFFF
    } else {
        (tool_crc_register(msg, (n - 3) as nat) ^ (((msg[n - 3] as u32) << 16u32) | ((msg[n
            - 2] as u32) << 8u32) | msg[n - 1] as u32)) & 0xFFFFFFu32
    }
}

fn crc_bit(crc: u32, byte: u32, bit: u32) -> (r: u32)
    requires
        bit < 8,
    ensures
        r == tool_crc_bit(crc, byte, bit),
{
    (if (crc ^ (byte << (bit + 16))) & 0x800000 != 0 {
        (crc << 1) ^ 0xFFF409
    } else {
        crc << 1
    }) & 0xFFFFFF
}

/// The tool's bit-serial Mode-S residual.
pub fn modes_crc(msg: &[u8]) -> (crc: u32)
    ensures
        crc == tool_crc(msg@),
{
    let n = msg.len();
    if n < 3 {
        return 0xFFFFFF;
    }
    let mut crc: u32 = 0;
    let mut i: usize = 0;
    while i < n - 3
        invariant
            n == msg@.len(),
            n >= 3,
            i <= n - 3,
            crc == tool_crc_register(msg@, i as nat),
        decreases n - 3 - i,
    {
        let byte = msg[i] as u32;
        let mut c = crc;
        c = crc_bit(c, byte, 7);
        c = crc_bit(c, byte, 6);
        c = crc_bit(c, byte, 5);
        c = crc_bit(c, byte, 4);
        c = crc_bit(c, byte, 3);
        c = crc_bit(c, byte, 2);
        c = crc_bit(c, byte, 1);
        c = crc_bit(c, byte, 0);
        crc = c;
        i += 1;
    }
    crc = crc ^ (((msg[n - 3] as u32) << 16) | ((msg[n - 2] as u32) << 8) | msg[n - 1] as u32);
    crc & 0xFFFFFF
}

/// The tool's residual of the first `n` bytes of `msg`.
pub open spec fn prefix_crc(msg: Seq<u8>, n: int) -> u32 {
    tool_crc(msg.take(n))
}

/// Flipping bit `b` (below `bits`) zeroes the tool's residual of the first
/// `bits / 8` bytes.
pub open spec fn tool_repairs(msg: Seq<u8>, bits: int, b: int) -> bool {
    0 <= b < bits && prefix_crc(flip_bit(msg, b), bits / 8) == 0
}

fn prefix(msg: &[u8; 14], n: usize) -> (v: Vec<u8>)
    requires
        n <= 14,
    ensures
        v@ == msg@.take(n as int),
{
    let mut v: Vec<u8> = Vec::new();
    let mut i: usize = 0;
    while i < n
        invariant
            i <= n <= 14,
            v@ == msg@.take(i as int),
        decreases n - i,
    {
        v.push(msg[i]);
        assert(msg@.take(i as int).push(msg@[i as int]) =~= msg@.take(i + 1));
        i += 1;
    }
    v
}

/// Tries to repair one bit of a frame of `bits` bits in place, the tool's
/// way: true when the residual is already zero or the lowest bit whose
/// flip zeroes it was flipped; otherwise false with the frame unchanged.
pub fn fix_single_bit(msg: &mut [u8; 14], bits: usize) -> (fixed: bool)
    requires
        bits <= 112,
    ensures
        fixed == (prefix_crc(old(msg)@, (bits / 8) as int) == 0 || exists|b: int| tool_repairs(old(msg)@, bits as int, b)),
        !fixed || prefix_crc(old(msg)@, (bits / 8) as int) == 0 ==> final(msg)@ == old(msg)@,
        fixed && prefix_crc(old(msg)@, (bits / 8) as int) != 0 ==> exists|b: int|
            {
                &&& tool_repairs(old(msg)@, bits as int, b)
                &&& final(msg)@ == flip_bit(old(msg)@, b)
                &&& forall|c: int| 0 <= c < b ==> !tool_repairs(old(msg)@, bits as int, c)
            },
{
    let ghost orig = msg@;
    let p = prefix(msg, bits / 8);
    let orig_crc = modes_crc(p.as_slice());
    if orig_crc == 0 {
        return true;
    }
    let mut bit: usize = 0;
    while bit < bits
        invariant
            bits <= 112,
            orig == old(msg)@,
            msg@ == orig,
            bit <= bits,
            prefix_crc(orig, (bits / 8) as int) != 0,
            forall|c: int| 0 <= c < bit ==> !tool_repairs(orig, bits as int, c),
        decreases bits - bit,
    {
        let byte_idx = bit / 8;
        let mask: u8 = 1u8 << ((7 - (bit % 8)) as u8);
        let before = msg[byte_idx];
        msg[byte_idx] = before ^ mask;
        assert(msg@ == flip_bit(orig, bit as int));
        let q = prefix(msg, bits / 8);
        if modes_crc(q.as_slice()) == 0 {
            assert(tool_repairs(orig, bits as int, bit as int));
            return true;
        }
        msg[byte_idx] = msg[byte_idx] ^ mask;
        assert(before ^ mask ^ mask == before) by (bit_vector);
        assert(msg@ =~= orig);
        bit += 1;
    }
    assert forall|b: int| !tool_repairs(orig, bits as int, b) by {
        if 0 <= b < bits {
        }
    }
    false
}

/// Sum over the 112 bits at `off` of |first sample − second sample|, for
/// the first `k` bits.
pub open spec fn confidence_total(m: Seq<u16>, off: int, k: nat) -> nat
    decreases k,
{
    if k == 0 {
        0
    } else {
        let s0 = m[bit_sample(off, k - 1)] as int;
        let s1 = m[bit_sample(off, k - 1) + 1] as int;
        confidence_total(m, off, (k - 1) as nat) + (if s0 >= s1 {
            s0 - s1
        } else {
            s1 - s0
        }) as nat
    }
}

/// Whether the tool accepts a frame: DF11/17/18 need a zero residual, DF
/// 0/4/5/16/20/21 a mean confidence above 8 and a residual other than 0
/// and 0xFFFFFF.
pub open spec fn tool_accepts(df: u8, crc: u32, avg: nat) -> bool {
    if df == 11 || df == 17 || df == 18 {
        crc == 0
    } else if df == 0 || df == 4 || df == 5 || df == 16 || df == 20 || df == 21 {
        avg > 8 && crc != 0 && crc != 0xFFFFFF
    } else {
        false
    }
}

/// What the tool's scan yields from sample `off` on: (format, 14 sliced
/// bytes, length in bits) for each accepted frame, in order.
pub open spec fn tool_scan(m: Seq<u16>, off: nat) -> Seq<(u8, Seq<u8>, usize)>
    decreases m.len() - off,
{
    if off + 240 > m.len() {
        Seq::empty()
    } else if !tool_preamble(m, off as int) {
        tool_scan(m, off + 1)
    } else {
        let frame = sliced_frame(m, off as int);
        let bits = sliced_bits(m, off as int);
        let avg = confidence_total(m, off as int, 112) / bits;
        let df = frame[0] >> 3u8;
        if avg >= 3 && tool_accepts(df, tool_crc(frame.take((bits / 8) as int)), avg) {
            seq![(df, frame, bits as usize)] + tool_scan(m, off + 16 + 2 * bits)
        } else {
            tool_scan(m, off + 1)
        }
    }
}

/// Views of the tool's frames.
pub open spec fn tool_frames_view(v: Seq<(u8, [u8; 14], usize)>) -> Seq<(u8, Seq<u8>, usize)> {
    v.map_values(|f: (u8, [u8; 14], usize)| (f.0, f.1@, f.2))
}

fn confidence_sum(mag: &[u16], off: usize) -> (s: u32)
    requires
        off + 16 + 224 <= mag.len(),
    ensures
        s == confidence_total(mag@, off as int, 112),
{
    let mut s: u32 = 0;
    let mut bit: usize = 0;
    while bit < 112
        invariant
            off + 16 + 224 <= mag.len(),
            bit <= 112,
            s == confidence_total(mag@, off as int, bit as nat),
            s <= 65535 * bit,
        decreases 112 - bit,
    {
        let a = mag[off + 16 + bit * 2] as u32;
        let b = mag[off + 16 + bit * 2 + 1] as u32;
        let d = if a >= b {
            a - b
        } else {
            b - a
        };
        s = s + d;
        bit += 1;
    }
    s
}

/// One step of the tool's scan at `off`.
fn tool_step(mag: &[u16], off: usize) -> (r: (Option<(u8, [u8; 14], usize)>, usize))
    requires
        off + 240 <= mag.len(),
    ensures
        off < r.1 <= mag@.len(),
        tool_scan(mag@, off as nat) == match r.0 {
            Some(f) => seq![(f.0, f.1@, f.2)] + tool_scan(mag@, r.1 as nat),
            None => tool_scan(mag@, r.1 as nat),
        },
{
    let ghost m = mag@;
    if !detect_preamble(mag, off) {
        return (None, off + 1);
    }
    let mut frame = [0u8; 14];
    let mut j: usize = 0;
    while j < 14
        invariant
            off + 16 + 224 <= mag.len(),
            j <= 14,
            forall|i: int| 0 <= i < j ==> #[trigger] frame@[i] as int == frame_byte(mag@, off as int, i),
        decreases 14 - j,
    {
        frame[j] = byte_at(mag, off, j);
        j += 1;
    }
    assert(frame@ =~= sliced_frame(m, off as int));
    let conf_sum = confidence_sum(mag, off);
    let df = frame[0] >> 3;
    let f0 = frame[0];
    assert((f0 >> 3u8 >= 16) == (f0 >= 128)) by (bit_vector);
    let bits: usize = if df >= 16 {
        112
    } else {
        56
    };
    let avg_conf = conf_sum / bits as u32;
    if avg_conf < 3 {
        return (None, off + 1);
    }
    let p = prefix(&frame, bits / 8);
    let crc = modes_crc(p.as_slice());
    let valid = if df == 11 || df == 17 || df == 18 {
        crc == 0
    } else if df == 0 || df == 4 || df == 5 || df == 16 || df == 20 || df == 21 {
        avg_conf > 8 && crc != 0 && crc != 0xFFFFFF
    } else {
        false
    };
    if valid {
        let fixed = if (df == 17 || df == 18) && crc != 0 {
            fix_single_bit(&mut frame, bits)
        } else {
            crc == 0
        };
        if fixed || (df != 17 && df != 18) {
            return (Some((df, frame, bits)), off + 16 + bits * 2);
        }
    }
    (None, off + 1)
}

/// The tool's 1090 MHz demodulation of one chunk: converts the I/Q pairs
/// into the front of `mag` (growing it when short) and returns the frames
/// the scan accepts.
pub fn demod_1090_chunk(iq: &[u8], lut: &MagLut, mag: &mut Vec<u16>) -> (frames: Vec<(u8, [u8; 14], usize)>)
    requires
        lut.wf(),
    ensures
        final(mag)@.len() >= iq@.len() / 2,
        forall|k: int|
            0 <= k < iq@.len() / 2 ==> #[trigger] final(mag)@[k] == lut.entry(iq@[2 * k], iq@[2 * k + 1]),
        tool_frames_view(frames@) == tool_scan(final(mag)@.take((iq@.len() / 2) as int), 0),
{
    let iq_len = iq.len();
    let samples = iq_len / 2;
    if mag.len() < samples {
        mag.resize(samples, 0);
    }
    let mut k: usize = 0;
    while k < samples
        invariant
            lut.wf(),
            iq_len == iq@.len(),
            samples == iq@.len() / 2,
            mag@.len() >= samples,
            k <= samples,
            forall|j: int| 0 <= j < k ==> #[trigger] mag@[j] == lut.entry(iq@[2 * j], iq@[2 * j + 1]),
        decreases samples - k,
    {
        let a = iq[2 * k];
        let b = iq[2 * k + 1];
        let v = lut.lookup(a, b);
        mag.set(k, v);
        k += 1;
    }
    let m = copy_prefix(mag, samples);
    scan_all(m.as_slice())
}

fn scan_all(m: &[u16]) -> (frames: Vec<(u8, [u8; 14], usize)>)
    ensures
        tool_frames_view(frames@) == tool_scan(m@, 0),
{
    let samples = m.len();
    let mut frames: Vec<(u8, [u8; 14], usize)> = Vec::new();
    let mut off: usize = 0;
    while samples - off >= 240
        invariant
            samples == m@.len(),
            off <= samples,
            tool_scan(m@, 0) == tool_frames_view(frames@) + tool_scan(m@, off as nat),
        decreases samples - off,
    {
        let ghost before = frames@;
        let (found, next) = tool_step(m, off);
        match found {
            Some(f) => {
                let ghost fv = (f.0, f.1@, f.2);
                frames.push(f);
                proof {
                    assert(tool_frames_view(frames@) =~= tool_frames_view(before).push(fv));
                    let t = tool_scan(m@, next as nat);
                    assert(tool_frames_view(before) + (seq![fv] + t) =~= tool_frames_view(before).push(fv) + t);
                }
            },
            None => {},
        }
        off = next;
    }
    assert(tool_frames_view(frames@) + Seq::<(u8, Seq<u8>, usize)>::empty() =~= tool_frames_view(frames@));
    frames
}

fn copy_prefix(v: &Vec<u16>, n: usize) -> (r: Vec<u16>)
    requires
        n <= v@.len(),
    ensures
        r@ == v@.take(n as int),
{
    let mut r: Vec<u16> = Vec::with_capacity(n);
    let mut i: usize = 0;
    while i < n
        invariant
            i <= n <= v@.len(),
            r@ == v@.take(i as int),
        decreases n - i,
    {
        r.push(v[i]);
        assert(v@.take(i as int).push(v@[i as int]) =~= v@.take(i + 1));
        i += 1;
    }
    r
}

impl MagLut {
    /// Looks up one pair.
    pub fn lookup(&self, i: u8, q: u8) -> (m: u16)
        requires
            self.wf(),
        ensures
            m == self.entry(i, q),
    {
        let k: usize = (i as usize) * 256 + (q as usize);
        self.table[k]
    }
}

// ===== 162 MHz AIS decoder =====

/// Armors binary data into NMEA payload characters (whole 6-bit groups).
pub fn payload_to_nmea_chars(data: &[u8]) -> (s: String)
    requires
        data@.len() * 8 <= usize::MAX,
    ensures
        s@ == crate::nmea::armored_payload(data@),
{
    crate::nmea::bits_to_nmea_payload(data)
}

/// The decoder's phase: waiting for alternating training bits, inside the
/// start flag, or receiving data and checksum.
#[derive(Clone, Copy, PartialEq, Eq, Debug)]
pub enum AisDecState {
    Training,
    StartFlag,
    DataFcs,
}

/// The decoder's state as plain values.
pub struct DecoderModel {
    pub state: AisDecState,
    pub prev: bool,
    pub last_bit: bool,
    pub position: usize,
    pub one_seq: u8,
    pub bits: Seq<u8>,
}

/// One step of the reflected CRC-16 (polynomial 0x8408) on one data bit.
pub open spec fn x25_step(crc: u16, bit: u8) -> u16 {
    if ((bit as u16) ^ crc) & 1u16 != 0 {
        ((crc >> 1u16) ^ 0x8408u16) as u16
    } else {
        (crc >> 1u16) as u16
    }
}

/// The register after the first `n` bits, from 0xFFFF.
pub open spec fn x25_register(bits: Seq<u8>, n: nat) -> u16
    decreases n,
{
    if n == 0 {
        0xFFFF
    } else {
        x25_step(x25_register(bits, (n - 1) as nat), bits[n - 1])
    }
}

/// The first `len` received bits end in a valid frame check sequence: the
/// register ends at the good residue 0xF0B8.
pub open spec fn crc_ok(bits: Seq<u8>, len: int) -> bool {
    len <= bits.len() && x25_register(bits, len as nat) == 0xF0B8
}

/// The `c`-th 6-bit group of a bit list (one bit per entry), MSB first.
pub open spec fn bit_group(bits: Seq<u8>, c: int) -> u8 {
    (32 * bits[6 * c] + 16 * bits[6 * c + 1] + 8 * bits[6 * c + 2] + 4 * bits[6 * c + 3] + 2 * bits[6
        * c + 4] + bits[6 * c + 5]) as u8
}

/// The sentence for a frame whose first `len` bits passed the check (the
/// last 16 are the check sequence): none when fewer than 6 payload bits.
pub open spec fn frame_sentence(bits: Seq<u8>, len: int) -> Option<Seq<char>> {
    let payload_bits = len - 16;
    if payload_bits < 6 || payload_bits > bits.len() {
        None
    } else {
        let nmea = Seq::new((payload_bits / 6) as nat, |c: int| armor(bit_group(bits, c)));
        Some(aivdm_sentence(nmea, (payload_bits % 6) as u8))
    }
}

/// Back to waiting for training bits.
pub open spec fn reset_model(s: DecoderModel) -> DecoderModel {
    DecoderModel { state: AisDecState::Training, position: 0, one_seq: 0, ..s }
}

/// One sliced level into the decoder: the model after, the sentence
/// emitted, and whether a frame passed or failed its check. NRZI: a level
/// equal to the previous one is a 1. Training counts alternating bits; after
/// more than 8 a repeated bit enters the start flag, whose 0111111 0 ends
/// it; data bits are collected with a 0 after five 1s dropped as stuffing,
/// and six 1s close the frame, which is checked when it holds 16 bits or
/// more (the frame's length is taken as the bit count minus 7, wrapping
/// when shorter, in which case the check fails).
pub open spec fn decoder_step(s: DecoderModel, level: bool) -> (DecoderModel, Option<Seq<char>>, bool, bool) {
    let bit = !(level ^ s.prev);
    let s0 = DecoderModel { prev: level, ..s };
    let (s1, out, ok, fail) = match s.state {
        AisDecState::Training => if bit != s.last_bit {
            (DecoderModel { position: (s.position + 1) as usize, ..s0 }, None, false, false)
        } else if s.position > 8 {
            (
                DecoderModel {
                    state: AisDecState::StartFlag,
                    position: if bit {
                        3
                    } else {
                        1
                    },
                    ..s0
                },
                None,
                false,
                false,
            )
        } else {
            (DecoderModel { position: 0, ..s0 }, None, false, false)
        },
        AisDecState::StartFlag => if s.position == 7 {
            if !bit {
                (
                    DecoderModel {
                        state: AisDecState::DataFcs,
                        position: 0,
                        one_seq: 0,
                        bits: Seq::empty(),
                        ..s0
                    },
                    None,
                    false,
                    false,
                )
            } else {
                (reset_model(s0), None, false, false)
            }
        } else if bit {
            (DecoderModel { position: (s.position + 1) as usize, ..s0 }, None, false, false)
        } else {
            (reset_model(s0), None, false, false)
        },
        AisDecState::DataFcs => {
            let pushed = DecoderModel {
                bits: s.bits.push(
                    if bit {
                        1u8
                    } else {
                        0u8
                    },
                ),
                position: (s.position + 1) as usize,
                ..s0
            };
            let (t, out, ok, fail) = if bit {
                if s.one_seq == 5 {
                    let data_len = if pushed.position >= 7 {
                        pushed.position - 7
                    } else {
                        pushed.position + usize::MAX + 1 - 7
                    };
                    if data_len >= 16 {
                        if crc_ok(pushed.bits, data_len) {
                            (reset_model(pushed), frame_sentence(pushed.bits, data_len), true, false)
                        } else {
                            (reset_model(pushed), None, false, true)
                        }
                    } else {
                        (reset_model(pushed), None, false, false)
                    }
                } else {
                    (DecoderModel { one_seq: (s.one_seq + 1) as u8, ..pushed }, None, false, false)
                }
            } else if s.one_seq == 5 {
                (
                    DecoderModel {
                        bits: pushed.bits.drop_last(),
                        position: (pushed.position - 1) as usize,
                        one_seq: 0,
                        ..pushed
                    },
                    None,
                    false,
                    false,
                )
            } else {
                (DecoderModel { one_seq: 0, ..pushed }, None, false, false)
            };
            (
                if t.position > 1200 {
                    reset_model(t)
                } else {
                    t
                },
                out,
                ok,
                fail,
            )
        },
    };
    (DecoderModel { last_bit: bit, ..s1 }, out, ok, fail)
}

/// The tool's AIS HDLC decoder (one per sampling phase).
pub struct AisDecoder {
    state: AisDecState,
    prev: bool,
    last_bit: bool,
    position: usize,
    one_seq: u8,
    bits: Vec<u8>,
}

impl AisDecoder {
    /// The state as plain values.
    pub closed spec fn model(&self) -> DecoderModel {
        DecoderModel {
            state: self.state,
            prev: self.prev,
            last_bit: self.last_bit,
            position: self.position,
            one_seq: self.one_seq,
            bits: self.bits@,
        }
    }

    /// Every collected entry is a single bit.
    pub closed spec fn bits_ok(&self) -> bool {
        forall|i: int| 0 <= i < self.bits@.len() ==> #[trigger] self.bits@[i] <= 1
    }

    /// Bounds the decoder keeps: single bits, and in data at most 1200.
    pub closed spec fn wf(&self) -> bool {
        &&& self.bits_ok()
        &&& self.one_seq <= 5
        &&& self.state == AisDecState::DataFcs ==> self.position <= 1200 && self.bits@.len()
            == self.position
        &&& self.state == AisDecState::StartFlag ==> self.position <= 7
    }

    /// A decoder waiting for training bits.
    pub fn new() -> (d: Self)
        ensures
            d.wf(),
            d.model() == (DecoderModel {
                state: AisDecState::Training,
                prev: false,
                last_bit: false,
                position: 0,
                one_seq: 0,
                bits: Seq::empty(),
            }),
    {
        AisDecoder {
            state: AisDecState::Training,
            prev: false,
            last_bit: false,
            position: 0,
            one_seq: 0,
            bits: Vec::with_capacity(1024),
        }
    }

    /// Back to waiting for training bits.
    pub fn reset(&mut self)
        requires
            old(self).bits_ok(),
        ensures
            final(self).wf(),
            final(self).model() == reset_model(old(self).model()),
    {
        self.state = AisDecState::Training;
        self.position = 0;
        self.one_seq = 0;
    }

    /// Whether the training counter can still advance.
    pub fn position_below_limit(&self) -> (ok: bool)
        ensures
            ok == (self.model().position < usize::MAX),
    {
        self.position < usize::MAX
    }

    /// Feeds one sliced level (true for a positive filter output): appends
    /// the sentence of a frame it completes to `out`, and counts the frame
    /// in `stats` (passed, failed).
    pub fn feed_level(&mut self, level: bool, out: &mut Vec<String>, stats: &mut (u64, u64))
        requires
            old(self).wf(),
            old(self).model().position < usize::MAX,
            old(stats).0 < u64::MAX,
            old(stats).1 < u64::MAX,
        ensures
            final(self).wf(),
            ({
                let (m, o, ok, fail) = decoder_step(old(self).model(), level);
                &&& final(self).model() == m
                &&& final(stats).0 == old(stats).0 + if ok {
                    1int
                } else {
                    0
                }
                &&& final(stats).1 == old(stats).1 + if fail {
                    1int
                } else {
                    0
                }
                &&& match o {
                    Some(sentence) => final(out)@.len() == old(out)@.len() + 1 && final(out)@.take(
                        old(out)@.len() as int,
                    ) == old(out)@ && final(out)@.last()@ == sentence,
                    None => final(out)@ == old(out)@,
                }
            }),
    {
        let bit = !(level ^ self.prev);
        self.prev = level;
        match self.state {
            AisDecState::Training => {
                if bit != self.last_bit {
                    self.position = self.position + 1;
                } else {
                    if self.position > 8 {
                        self.state = AisDecState::StartFlag;
                        self.position = if bit {
                            3
                        } else {
                            1
                        };
                    } else {
                        self.position = 0;
                    }
                }
            },
            AisDecState::StartFlag => {
                if self.position == 7 {
                    if !bit {
                        self.state = AisDecState::DataFcs;
                        self.position = 0;
                        self.one_seq = 0;
                        self.bits.clear();
                    } else {
                        self.reset();
                    }
                } else {
                    if bit {
                        self.position = self.position + 1;
                    } else {
                        self.reset();
                    }
                }
            },
            AisDecState::DataFcs => {
                self.bits.push(
                    if bit {
                        1
                    } else {
                        0
                    },
                );
                self.position = self.position + 1;
                if bit {
                    if self.one_seq == 5 {
                        let data_len = self.position.wrapping_sub(7);
                        if data_len >= 16 {
                            if self.check_crc(data_len) {
                                stats.0 = stats.0 + 1;
                                self.emit_nmea(data_len, out);
                            } else {
                                stats.1 = stats.1 + 1;
                            }
                        }
                        self.reset();
                    } else {
                        self.one_seq = self.one_seq + 1;
                    }
                } else {
                    if self.one_seq == 5 {
                        self.bits.pop();
                        self.position = self.position - 1;
                    }
                    self.one_seq = 0;
                }
                if self.position > 1200 {
                    self.reset();
                }
            },
        }
        self.last_bit = bit;
    }

    /// Whether the first `len` collected bits pass the frame check.
    pub fn check_crc(&self, len: usize) -> (ok: bool)
        ensures
            ok == crc_ok(self.model().bits, len as int),
    {
        if len > self.bits.len() {
            return false;
        }
        let mut crc: u16 = 0xFFFF;
        let mut i: usize = 0;
        while i < len
            invariant
                len <= self.bits@.len(),
                i <= len,
                crc == x25_register(self.bits@, i as nat),
            decreases len - i,
        {
            let bit = self.bits[i] as u16;
            if (bit ^ crc) & 1 != 0 {
                crc = (crc >> 1) ^ 0x8408;
            } else {
                crc = crc >> 1;
            }
            i += 1;
        }
        crc == 0xF0B8
    }

    /// Appends the sentence of the first `len` collected bits (the last 16
    /// are the check sequence) to `out`; nothing when under 6 payload bits.
    pub fn emit_nmea(&self, len: usize, out: &mut Vec<String>)
        requires
            len >= 16,
            forall|i: int| 0 <= i < self.model().bits.len() ==> #[trigger] self.model().bits[i] <= 1,
        ensures
            match frame_sentence(self.model().bits, len as int) {
                Some(sentence) => final(out)@.len() == old(out)@.len() + 1 && final(out)@.take(
                    old(out)@.len() as int,
                ) == old(out)@ && final(out)@.last()@ == sentence,
                None => final(out)@ == old(out)@,
            },
    {
        let payload_bits = len - 16;
        if payload_bits < 6 || payload_bits > self.bits.len() {
            return ;
        }
        let chars = payload_bits / 6;
        let mut nmea = String::new();
        let ghost target = Seq::new(chars as nat, |c: int| armor(bit_group(self.bits@, c)));
        let mut c: usize = 0;
        while c < chars
            invariant
                chars == payload_bits / 6,
                payload_bits <= self.bits@.len(),
                forall|i: int| 0 <= i < self.bits@.len() ==> #[trigger] self.bits@[i] <= 1,
                c <= chars,
                target == Seq::new(chars as nat, |k: int| armor(bit_group(self.bits@, k))),
                nmea@ == target.take(c as int),
            decreases chars - c,
        {
            let base = c * 6;
            let b0 = self.bits[base];
            let b1 = self.bits[base + 1];
            let b2 = self.bits[base + 2];
            let b3 = self.bits[base + 3];
            let b4 = self.bits[base + 4];
            let b5 = self.bits[base + 5];
            let val: u8 = 32 * b0 + 16 * b1 + 8 * b2 + 4 * b3 + 2 * b4 + b5;
            let ch = (if val < 40 {
                val + 48
            } else {
                val + 56
            }) as char;
            string_push(&mut nmea, ch);
            assert(target.take(c as int).push(ch) =~= target.take(c + 1));
            c += 1;
        }
        assert(target.take(chars as int) =~= target);
        let fill = (payload_bits % 6) as u8;
        let sentence = aivdm(&nmea, fill);
        out.push(sentence);
        assert(out@.take(old(out)@.len() as int) =~= old(out)@);
    }
}

} // verus!
