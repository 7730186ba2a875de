//! Mode-S preamble detection on magnitude samples (2 samples per microsecond).
use vstd::prelude::*;

verus! {

/// Samples a frame occupies from its preamble start: 16 preamble samples and
/// 112 bits of two samples each.
pub const FRAME_SPAN: usize = 240;

/// Sum of the four pulse samples of a preamble starting at `off`.
pub open spec fn pulse_sum(m: Seq<u16>, off: int) -> int {
    m[off] + m[off + 2] + m[off + 7] + m[off + 9]
}

/// Sum of the twelve samples between and after the pulses.
pub open spec fn valley_sum(m: Seq<u16>, off: int) -> int {
    m[off + 1] + m[off + 3] + m[off + 4] + m[off + 5] + m[off + 6] + m[off + 8] + m[off + 10]
        + m[off + 11] + m[off + 12] + m[off + 13] + m[off + 14] + m[off + 15]
}

/// A preamble starts at `off`: a whole frame fits, each of the four pulses
/// is higher than the sample after it, the pulses outweigh the valleys by 3:2
/// and the weakest pulse is at least 50.
pub open spec fn preamble_at(m: Seq<u16>, off: int) -> bool {
    &&& off + 240 <= m.len()
    &&& m[off] > m[off + 1]
    &&& m[off + 2] > m[off + 3]
    &&& m[off + 7] > m[off + 8]
    &&& m[off + 9] > m[off + 10]
    &&& pulse_sum(m, off) * 3 > valley_sum(m, off) * 2
    &&& m[off] >= 50
    &&& m[off + 2] >= 50
    &&& m[off + 7] >= 50
    &&& m[off + 9] >= 50
}

/// Tells whether a Mode-S preamble starts at sample `offset`.
pub fn detect_preamble(mag: &[u16], offset: usize) -> (found: bool)
    requires
        offset + 240 <= usize::MAX,
    ensures
        found == preamble_at(mag@, offset as int),
{
    if offset + 16 + 112 * 2 > mag.len() {
        return false;
    }
    let m0 = mag[offset];
    let m1 = mag[offset + 1];
    let m2 = mag[offset + 2];
    let m3 = mag[offset + 3];
    let m7 = mag[offset + 7];
    let m8 = mag[offset + 8];
    let m9 = mag[offset + 9];
    let m10 = mag[offset + 10];
    if m0 <= m1 || m2 <= m3 || m7 <= m8 || m9 <= m10 {
        return false;
    }
    let p0 = m0 as u32;
    let p1 = m2 as u32;
    let p2 = m7 as u32;
    let p3 = m9 as u32;
    let pulse = p0 + p1 + p2 + p3;
    let valley = m1 as u32 + m3 as u32 + mag[offset + 4] as u32 + mag[offset + 5] as u32
        + mag[offset + 6] as u32 + m8 as u32 + m10 as u32 + mag[offset + 11] as u32
        + mag[offset + 12] as u32 + mag[offset + 13] as u32 + mag[offset + 14] as u32
        + mag[offset + 15] as u32;
    if pulse * 3 <= valley * 2 {
        return false;
    }
    if p0 < 50 || p1 < 50 || p2 < 50 || p3 < 50 {
        return false;
    }
    true
}

/// Indices below `n` whose sample exceeds `threshold`, in increasing order.
pub open spec fn candidates_below(m: Seq<u16>, threshold: u16, n: nat) -> Seq<usize>
    decreases n,
{
    if n == 0 {
        Seq::empty()
    } else {
        let before = candidates_below(m, threshold, (n - 1) as nat);
        if m[n - 1] > threshold {
            before.push((n - 1) as usize)
        } else {
            before
        }
    }
}

/// The candidates below `n` are, in strictly increasing order, exactly the
/// indices below `n` whose sample exceeds `threshold`.
pub proof fn lemma_candidates_are_the_hits(m: Seq<u16>, threshold: u16, n: nat)
    requires
        n <= m.len(),
        m.len() <= usize::MAX,
    ensures
        ({
            let c = candidates_below(m, threshold, n);
            &&& forall|a: int, b: int| 0 <= a < b < c.len() ==> c[a] < c[b]
            &&& forall|a: int| 0 <= a < c.len() ==> c[a] < n && m[c[a] as int] > threshold
            &&& forall|i: int|
                0 <= i < n && #[trigger] m[i] > threshold ==> exists|a: int|
                    0 <= a < c.len() && c[a] == i
        }),
    decreases n,
{
    if n > 0 {
        lemma_candidates_are_the_hits(m, threshold, (n - 1) as nat);
        let before = candidates_below(m, threshold, (n - 1) as nat);
        let c = candidates_below(m, threshold, n);
        assert forall|i: int| 0 <= i < n && #[trigger] m[i] > threshold implies exists|a: int|
            0 <= a < c.len() && c[a] == i by {
            if i < n - 1 {
                let a = choose|a: int| 0 <= a < before.len() && before[a] == i;
                assert(c[a] == before[a]);
            } else {
                assert(c[c.len() - 1] == i);
            }
        }
    }
}

/// Number of leading samples at which a whole frame still fits.
pub open spec fn scan_limit(len: nat) -> nat {
    if len >= 240 {
        (len - 240) as nat
    } else {
        0
    }
}

/// Collects every sample index at which a whole frame still fits and whose
/// magnitude exceeds `threshold`, replacing what `candidates` held.
pub fn scan_candidates_scalar(mag: &[u16], threshold: u16, candidates: &mut Vec<usize>)
    ensures
        final(candidates)@ == candidates_below(mag@, threshold, scan_limit(mag@.len())),
{
    candidates.clear();
    let n = mag.len().saturating_sub(FRAME_SPAN);
    let mut i: usize = 0;
    while i < n
        invariant
            n == scan_limit(mag@.len()),
            i <= n,
            n <= mag@.len(),
            candidates@ == candidates_below(mag@, threshold, i as nat),
        decreases n - i,
    {
        if mag[i] > threshold {
            candidates.push(i);
        }
        i += 1;
    }
}

/// Collects the same candidates as `scan_candidates_scalar`, sixteen
/// samples at a time and then the rest.
pub fn scan_candidates_simd(mag: &[u16], threshold: u16, candidates: &mut Vec<usize>)
    ensures
        final(candidates)@ == candidates_below(mag@, threshold, scan_limit(mag@.len())),
{
    candidates.clear();
    let n = mag.len().saturating_sub(FRAME_SPAN);
    let chunks = n / 16;
    let mut i: usize = 0;
    let mut c: usize = 0;
    while c < chunks
        invariant
            n == scan_limit(mag@.len()),
            n <= mag@.len(),
            chunks == n / 16,
            c <= chunks,
            i == 16 * c,
            candidates@ == candidates_below(mag@, threshold, i as nat),
        decreases chunks - c,
    {
        let end = i + 16;
        while i < end
            invariant
                n == scan_limit(mag@.len()),
                n <= mag@.len(),
                chunks == n / 16,
                c < chunks,
                end == 16 * c + 16,
                end <= n,
                16 * c <= i <= end,
                candidates@ == candidates_below(mag@, threshold, i as nat),
            decreases end - i,
        {
            if mag[i] > threshold {
                candidates.push(i);
            }
            i += 1;
        }
        c += 1;
    }
    while i < n
        invariant
            n == scan_limit(mag@.len()),
            n <= mag@.len(),
            i <= n,
            candidates@ == candidates_below(mag@, threshold, i as nat),
        decreases n - i,
    {
        if mag[i] > threshold {
            candidates.push(i);
        }
        i += 1;
    }
}

} // verus!
