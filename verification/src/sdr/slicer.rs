//! Manchester bit slicing of a Mode-S frame from magnitude samples.
use vstd::prelude::*;

verus! {

/// First sample of bit `k` of the frame whose preamble starts at `off`.
pub open spec fn bit_sample(off: int, k: int) -> int {
    off + 16 + 2 * k
}

/// Bit `k` is 1 when its first half-bit sample is the higher one.
pub open spec fn bit_value(m: Seq<u16>, off: int, k: int) -> u8 {
    if m[bit_sample(off, k)] > m[bit_sample(off, k) + 1] {
        1
    } else {
        0
    }
}

/// Byte `j` of the sliced frame, most significant bit first.
pub open spec fn frame_byte(m: Seq<u16>, off: int, j: int) -> int {
    128 * bit_value(m, off, 8 * j) + 64 * bit_value(m, off, 8 * j + 1) + 32 * bit_value(
        m,
        off,
        8 * j + 2,
    ) + 16 * bit_value(m, off, 8 * j + 3) + 8 * bit_value(m, off, 8 * j + 4) + 4 * bit_value(
        m,
        off,
        8 * j + 5,
    ) + 2 * bit_value(m, off, 8 * j + 6) + bit_value(m, off, 8 * j + 7)
}

/// Confidence of bit `k`: 255·|s0 − s1| / (s0 + s1), at most 255 (a zero
/// sum counts as 1).
pub open spec fn bit_confidence(m: Seq<u16>, off: int, k: int) -> int {
    let s0 = m[bit_sample(off, k)] as int;
    let s1 = m[bit_sample(off, k) + 1] as int;
    let delta = if s0 >= s1 {
        s0 - s1
    } else {
        s1 - s0
    };
    let sum = if s0 + s1 >= 1 {
        s0 + s1
    } else {
        1
    };
    let c = delta * 255 / sum;
    if c <= 255 {
        c
    } else {
        255
    }
}

/// A sliced frame: 14 bytes, a confidence per bit, and the frame length in
/// bits (112 for downlink formats 16 and above, else 56).
pub struct SliceResult {
    pub frame: [u8; 14],
    pub confidence: [u8; 112],
    pub bits: usize,
}

/// What slicing the frame at `off` gives.
pub open spec fn is_slice_of(r: SliceResult, m: Seq<u16>, off: int) -> bool {
    &&& forall|j: int| 0 <= j < 14 ==> #[trigger] r.frame@[j] as int == frame_byte(m, off, j)
    &&& forall|k: int| 0 <= k < 112 ==> #[trigger] r.confidence@[k] as int == bit_confidence(m, off, k)
    &&& r.bits == (if r.frame@[0] >= 128 {
        112usize
    } else {
        56usize
    })
}

fn bit_at(mag: &[u16], off: usize, k: usize) -> (b: u8)
    requires
        off + 16 + 224 <= mag.len(),
        k < 112,
    ensures
        b == bit_value(mag@, off as int, k as int),
{
    if mag[off + 16 + 2 * k] > mag[off + 16 + 2 * k + 1] {
        1
    } else {
        0
    }
}

pub(crate) fn byte_at(mag: &[u16], off: usize, j: usize) -> (b: u8)
    requires
        off + 16 + 224 <= mag.len(),
        j < 14,
    ensures
        b as int == frame_byte(mag@, off as int, j as int),
{
    let k = 8 * j;
    128 * bit_at(mag, off, k) + 64 * bit_at(mag, off, k + 1) + 32 * bit_at(mag, off, k + 2) + 16
        * bit_at(mag, off, k + 3) + 8 * bit_at(mag, off, k + 4) + 4 * bit_at(mag, off, k + 5) + 2
        * bit_at(mag, off, k + 6) + bit_at(mag, off, k + 7)
}

fn confidence_at(mag: &[u16], off: usize, k: usize) -> (c: u8)
    requires
        off + 16 + 224 <= mag.len(),
        k < 112,
    ensures
        c as int == bit_confidence(mag@, off as int, k as int),
{
    let s0 = mag[off + 16 + 2 * k] as u32;
    let s1 = mag[off + 16 + 2 * k + 1] as u32;
    let delta = if s0 >= s1 {
        s0 - s1
    } else {
        s1 - s0
    };
    let sum = if s0 + s1 >= 1 {
        s0 + s1
    } else {
        1
    };
    let c = delta * 255 / sum;
    if c <= 255 {
        c as u8
    } else {
        255
    }
}

/// Slices the 112 bits following the preamble at `offset` into bytes, with a
/// confidence per bit.
pub fn slice_manchester(mag: &[u16], offset: usize) -> (r: SliceResult)
    requires
        offset + 16 + 224 <= mag.len(),
    ensures
        is_slice_of(r, mag@, offset as int),
{
    let mut frame = [0u8; 14];
    let mut j: usize = 0;
    while j < 14
        invariant
            offset + 16 + 224 <= mag.len(),
            j <= 14,
            forall|i: int| 0 <= i < j ==> #[trigger] frame@[i] as int == frame_byte(mag@, offset as int, i),
        decreases 14 - j,
    {
        frame[j] = byte_at(mag, offset, j);
        j += 1;
    }
    let mut confidence = [0u8; 112];
    let mut k: usize = 0;
    while k < 112
        invariant
            offset + 16 + 224 <= mag.len(),
            k <= 112,
            forall|i: int| 0 <= i < k ==> #[trigger] confidence@[i] as int == bit_confidence(mag@, offset as int, i),
        decreases 112 - k,
    {
        confidence[k] = confidence_at(mag, offset, k);
        k += 1;
    }
    let df = frame[0] >> 3;
    let f0 = frame[0];
    assert((f0 >> 3u8 >= 16) == (f0 >= 128)) by (bit_vector);
    let bits = if df >= 16 {
        112
    } else {
        56
    };
    SliceResult { frame, confidence, bits }
}

} // verus!
