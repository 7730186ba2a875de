//! I/Q sample magnitude lookup table.
use vstd::prelude::*;

verus! {

/// Four times the squared distance of the sample pair `(i, q)` from the
/// centre of the unsigned sample range, (127.5, 127.5).
pub open spec fn centre_dist4(i: int, q: int) -> int {
    (2 * i - 255) * (2 * i - 255) + (2 * q - 255) * (2 * q - 255)
}

/// `m` is the magnitude of `(i, q)` scaled by 181 and rounded down:
/// m ≤ 181·√((i−127.5)² + (q−127.5)²) < m + 1, squared out.
pub open spec fn is_scaled_magnitude(i: int, q: int, m: int) -> bool {
    let n = 32761 * centre_dist4(i, q);
    &&& 0 <= m
    &&& 4 * m * m <= n
    &&& n < 4 * (m + 1) * (m + 1)
}

/// Table index of the sample pair `(i, q)`.
pub open spec fn lut_index(i: int, q: int) -> int {
    i * 256 + q
}

/// Precomputed scaled magnitude of every 8-bit I/Q pair.
pub struct MagLut {
    pub table: Vec<u16>,
}

impl MagLut {
    /// The table has an entry for every pair and each entry is the scaled magnitude.
    pub open spec fn wf(&self) -> bool {
        &&& self.table@.len() == 65536
        &&& forall|k: int|
            0 <= k < 65536 ==> is_scaled_magnitude(k / 256, k % 256, #[trigger] self.table@[k] as int)
    }

    /// The table entry for the pair `(i, q)`.
    pub open spec fn entry(&self, i: u8, q: u8) -> u16 {
        self.table@[lut_index(i as int, q as int)]
    }

    /// Builds the table.
    pub fn new() -> (lut: Self)
        ensures
            lut.wf(),
    {
        let mut table: Vec<u16> = Vec::with_capacity(65536);
        let mut k: usize = 0;
        while k < 65536
            invariant
                k <= 65536,
                table@.len() == k,
                forall|j: int| 0 <= j < k ==> is_scaled_magnitude(j / 256, j % 256, #[trigger] table@[j] as int),
            decreases 65536 - k,
        {
            let m = scaled_magnitude((k / 256) as u16, (k % 256) as u16);
            table.push(m);
            k += 1;
        }
        MagLut { table }
    }

    /// Looks up the scaled magnitude of one sample pair.
    pub fn lookup(&self, i: u8, q: u8) -> (m: u16)
        requires
            self.wf(),
        ensures
            m == self.entry(i, q),
            is_scaled_magnitude(i as int, q as int, m as int),
    {
        let k: usize = (i as usize) * 256 + (q as usize);
        assert((i as int * 256 + q as int) / 256 == i as int);
        assert((i as int * 256 + q as int) % 256 == q as int);
        self.table[k]
    }
}

/// The scaled magnitude of `(i, q)` by binary search on the squared bound.
fn scaled_magnitude(i: u16, q: u16) -> (m: u16)
    requires
        i < 256,
        q < 256,
    ensures
        is_scaled_magnitude(i as int, q as int, m as int),
{
    let di: i64 = 2 * (i as i64) - 255;
    let dq: i64 = 2 * (q as i64) - 255;
    assert(0 <= di * di <= 65025) by (nonlinear_arith)
        requires
            -255 <= di <= 255,
    ;
    assert(0 <= dq * dq <= 65025) by (nonlinear_arith)
        requires
            -255 <= dq <= 255,
    ;
    let d: u64 = (di * di + dq * dq) as u64;
    let n: u64 = 32761 * d;
    let mut lo: u64 = 0;
    let mut hi: u64 = 32768;
    while hi - lo > 1
        invariant
            lo < hi <= 32768,
            n == 32761 * centre_dist4(i as int, q as int),
            n <= 4260568050,
            4 * lo * lo <= n,
            n < 4 * hi * hi,
        decreases hi - lo,
    {
        let mid = lo + (hi - lo) / 2;
        assert(4 * mid * mid <= 4 * 32768 * 32768) by (nonlinear_arith)
            requires
                mid < 32768,
        ;
        if 4 * mid * mid <= n {
            lo = mid;
        } else {
            hi = mid;
        }
    }
    assert(hi == lo + 1);
    lo as u16
}

/// Converts interleaved I/Q bytes to scaled magnitudes, one per pair.
pub fn iq_to_magnitude(lut: &MagLut, iq: &[u8], mag: &mut [u16])
    requires
        lut.wf(),
        iq@.len() >= 2 * old(mag)@.len(),
    ensures
        final(mag)@.len() == old(mag)@.len(),
        forall|k: int|
            0 <= k < final(mag)@.len() ==> #[trigger] final(mag)@[k] == lut.entry(
                iq@[2 * k],
                iq@[2 * k + 1],
            ),
{
    let n = mag.len();
    let iq_len = iq.len();
    let mut k: usize = 0;
    while k < n
        invariant
            lut.wf(),
            iq_len == iq@.len(),
            n == mag@.len(),
            n == old(mag)@.len(),
            iq@.len() >= 2 * n,
            k <= n,
            forall|j: int| 0 <= j < k ==> #[trigger] mag@[j] == lut.entry(iq@[2 * j], iq@[2 * j + 1]),
        decreases n - k,
    {
        let m = lut.lookup(iq[2 * k], iq[2 * k + 1]);
        mag[k] = m;
        k += 1;
    }
}

/// Distance of an 8-bit sample from 128.
pub open spec fn centre_dist(x: u8) -> u16 {
    if x >= 128 {
        (x - 128) as u16
    } else {
        (128 - x) as u16
    }
}

/// The alpha-max-plus-beta-min magnitude of a sample pair: the larger
/// distance from 128 plus a quarter (rounded down) of the smaller.
pub open spec fn approx_magnitude(i: u8, q: u8) -> u16 {
    let a = centre_dist(i);
    let b = centre_dist(q);
    if a >= b {
        (a + b / 4) as u16
    } else {
        (b + a / 4) as u16
    }
}

fn approx_pair(i: u8, q: u8) -> (m: u16)
    ensures
        m == approx_magnitude(i, q),
{
    let a: u16 = if i >= 128 {
        (i - 128) as u16
    } else {
        (128 - i) as u16
    };
    let b: u16 = if q >= 128 {
        (q - 128) as u16
    } else {
        (128 - q) as u16
    };
    assert(a <= 128 && b <= 128);
    assert(b >> 2 == b / 4) by (bit_vector);
    assert(a >> 2 == a / 4) by (bit_vector);
    if a >= b {
        a + (b >> 2)
    } else {
        b + (a >> 2)
    }
}

/// Converts interleaved I/Q bytes to approximate magnitudes without the
/// table, sixteen pairs at a time and then the rest: one magnitude per
/// whole pair, written to the front of `mag`.
pub fn iq_to_magnitude_simd(iq: &[u8], mag: &mut [u16])
    requires
        old(mag)@.len() >= iq@.len() / 2,
    ensures
        final(mag)@.len() == old(mag)@.len(),
        forall|k: int|
            0 <= k < iq@.len() / 2 ==> #[trigger] final(mag)@[k] == approx_magnitude(
                iq@[2 * k],
                iq@[2 * k + 1],
            ),
        forall|k: int| iq@.len() / 2 <= k < final(mag)@.len() ==> #[trigger] final(mag)@[k] == old(mag)@[k],
{
    let len = iq.len();
    let n = len / 2;
    let chunks = n / 16;
    let mut k: usize = 0;
    let mut c: usize = 0;
    while c < chunks
        invariant
            n == iq@.len() / 2,
            len == iq@.len(),
            chunks == n / 16,
            mag@.len() == old(mag)@.len(),
            mag@.len() >= n,
            c <= chunks,
            k == 16 * c,
            forall|j: int| 0 <= j < k ==> #[trigger] mag@[j] == approx_magnitude(iq@[2 * j], iq@[2 * j + 1]),
            forall|j: int| k <= j < mag@.len() ==> #[trigger] mag@[j] == old(mag)@[j],
        decreases chunks - c,
    {
        let end = k + 16;
        while k < end
            invariant
                n == iq@.len() / 2,
            len == iq@.len(),
                chunks == n / 16,
                c < chunks,
                end == 16 * c + 16,
                end <= n,
                mag@.len() == old(mag)@.len(),
                mag@.len() >= n,
                16 * c <= k <= end,
                forall|j: int| 0 <= j < k ==> #[trigger] mag@[j] == approx_magnitude(iq@[2 * j], iq@[2 * j + 1]),
                forall|j: int| k <= j < mag@.len() ==> #[trigger] mag@[j] == old(mag)@[j],
            decreases end - k,
        {
            mag[k] = approx_pair(iq[2 * k], iq[2 * k + 1]);
            k += 1;
        }
        c += 1;
    }
    while k < n
        invariant
            n == iq@.len() / 2,
            len == iq@.len(),
            mag@.len() == old(mag)@.len(),
            mag@.len() >= n,
            k <= n,
            forall|j: int| 0 <= j < k ==> #[trigger] mag@[j] == approx_magnitude(iq@[2 * j], iq@[2 * j + 1]),
            forall|j: int| k <= j < mag@.len() ==> #[trigger] mag@[j] == old(mag)@[j],
        decreases n - k,
    {
        mag[k] = approx_pair(iq[2 * k], iq[2 * k + 1]);
        k += 1;
    }
}

} // verus!
