use hpr_skygate::sdr::preamble::scan_candidates_simd;
use hpr_skygate::sdr::mag::iq_to_magnitude_simd;
use hpr_skygate::sdr::demod1090::Demod1090;
use hpr_skygate::sdr::mag::{iq_to_magnitude, MagLut};
use hpr_skygate::sdr::preamble::{detect_preamble, scan_candidates_scalar};
use hpr_skygate::sdr::slicer::slice_manchester;

fn float_magnitude(i: u8, q: u8) -> u16 {
    let fi = i as f64 - 127.5;
    let fq = q as f64 - 127.5;
    ((fi * fi + fq * fq).sqrt() * 181.0) as u16
}

#[test]
fn mag_lut_matches_float_formula() {
    let lut = MagLut::new();
    assert_eq!(lut.table.len(), 65536);
    for i in 0..=255u8 {
        for q in 0..=255u8 {
            assert_eq!(lut.lookup(i, q), float_magnitude(i, q), "i={} q={}", i, q);
        }
    }
    assert_eq!(lut.lookup(127, 127), 127);
    assert_eq!(lut.lookup(0, 0), 32636);
}

#[test]
fn iq_to_magnitude_pairs() {
    let lut = MagLut::new();
    let iq = [0u8, 0, 127, 127, 255, 128, 9];
    let mut mag = [0u16; 3];
    iq_to_magnitude(&lut, &iq, &mut mag);
    assert_eq!(mag, [32636, 127, float_magnitude(255, 128)]);
}

const HIGH: u16 = 1000;
const LOW: u16 = 10;

fn preamble() -> Vec<u16> {
    let mut m = vec![LOW; 16];
    for p in [0, 2, 7, 9] {
        m[p] = HIGH;
    }
    m
}

fn frame_samples(frame: &[u8]) -> Vec<u16> {
    let mut m = preamble();
    for bit in 0..112 {
        let set = bit / 8 < frame.len() && frame[bit / 8] & (0x80 >> (bit % 8)) != 0;
        if set {
            m.push(HIGH);
            m.push(LOW);
        } else {
            m.push(LOW);
            m.push(HIGH);
        }
    }
    m
}

fn hex(s: &str) -> Vec<u8> {
    (0..s.len()).step_by(2).map(|i| u8::from_str_radix(&s[i..i + 2], 16).unwrap()).collect()
}

#[test]
fn preamble_detection() {
    let mut m = preamble();
    m.resize(240, LOW);
    assert!(detect_preamble(&m, 0));
    // one sample short of a whole frame
    assert!(!detect_preamble(&m[..239], 0));
    // a weak pulse
    let mut weak = m.clone();
    weak[7] = 40;
    assert!(!detect_preamble(&weak, 0));
    // pulse not above its follower
    let mut flat = m.clone();
    flat[3] = HIGH;
    assert!(!detect_preamble(&flat, 0));
}

#[test]
fn candidates_above_threshold() {
    let mut m = vec![0u16; 260];
    m[3] = 100;
    m[9] = 50;
    m[12] = 101;
    m[255] = 500;
    let mut c = vec![77usize];
    scan_candidates_scalar(&m, 50, &mut c);
    assert_eq!(c, vec![3, 12]);
    scan_candidates_scalar(&m[..100], 0, &mut c);
    assert!(c.is_empty());
}

#[test]
fn slicer_recovers_bytes() {
    let frame = hex("8D4840D6202CC371C32CE0576098");
    let m = frame_samples(&frame);
    let r = slice_manchester(&m, 0);
    assert_eq!(&r.frame[..], &frame[..]);
    assert_eq!(r.bits, 112);
    // |1000 - 10| * 255 / 1010 = 249
    assert!(r.confidence.iter().all(|&c| c == 249));
    let short = hex("5D4840D6CC5765");
    let r = slice_manchester(&frame_samples(&short), 0);
    assert_eq!(r.bits, 56);
    assert_eq!(&r.frame[..7], &short[..]);
}

fn iq_for(mags: &[u16]) -> Vec<u8> {
    // (0,0) gives the highest magnitude, (127,127) the lowest
    let mut iq = Vec::new();
    for &m in mags {
        if m == HIGH {
            iq.push(0);
            iq.push(0);
        } else {
            iq.push(127);
            iq.push(127);
        }
    }
    iq
}

#[test]
fn demodulates_a_clean_frame() {
    let frame = hex("8D4840D6202CC371C32CE0576098");
    let mut m = vec![LOW; 20];
    m.extend(frame_samples(&frame));
    m.extend(vec![LOW; 30]);
    let iq = iq_for(&m);
    let mut d = Demod1090::new();
    let frames = d.process_chunk(&iq);
    assert_eq!(frames.len(), 1);
    assert_eq!(frames[0].payload, frame);
    assert_eq!(frames[0].signal, 127);
    assert_eq!(d.frames_ok, 1);
    assert_eq!(d.frames_fixed, 0);
}

#[test]
fn demod_repairs_one_bit() {
    let frame = hex("8D4840D6202CC371C32CE0576098");
    let mut bad = frame.clone();
    bad[9] ^= 0x04;
    let mut m = frame_samples(&bad);
    m.extend(vec![LOW; 10]);
    let mut d = Demod1090::new();
    let frames = d.process_chunk(&iq_for(&m));
    assert_eq!(frames.len(), 1);
    assert_eq!(frames[0].payload, frame);
    assert_eq!(d.frames_fixed, 1);
    assert_eq!(d.frames_ok, 0);
}

#[test]
fn demod_nothing_in_noise() {
    let mut d = Demod1090::new();
    let frames = d.process_chunk(&vec![127u8; 1000]);
    assert!(frames.is_empty());
    assert_eq!(d.frames_rejected, 0);
    let frames = d.process_chunk(&[]);
    assert!(frames.is_empty());
}

#[test]
fn scan_candidates_lists_every_hit_in_order() {
    let m: Vec<u16> = (0..400u32).map(|i| ((i * 37) % 101) as u16).collect();
    let mut c = vec![7usize, 7];
    scan_candidates_scalar(&m, 60, &mut c);
    let expected: Vec<usize> = (0..m.len() - 240).filter(|&i| m[i] > 60).collect();
    assert_eq!(c, expected);
    assert!(c.windows(2).all(|w| w[0] < w[1]));
}

#[test]
fn scan_candidates_simd_matches_scalar() {
    for len in [0usize, 100, 240, 241, 255, 256, 257, 300, 517] {
        let m: Vec<u16> = (0..len as u32).map(|i| ((i * 53) % 97) as u16).collect();
        let mut a = Vec::new();
        let mut b = vec![1usize];
        scan_candidates_scalar(&m, 48, &mut a);
        scan_candidates_simd(&m, 48, &mut b);
        assert_eq!(a, b);
    }
}

#[test]
fn approximate_magnitude_without_table() {
    let mut iq = Vec::new();
    for k in 0..37u32 {
        iq.push((k * 7 % 256) as u8);
        iq.push((255 - k * 11 % 256) as u8);
    }
    iq.push(9); // an unpaired byte gives no magnitude
    let mut mag = vec![0xFFFFu16; 40];
    iq_to_magnitude_simd(&iq, &mut mag);
    for k in 0..37 {
        let a = (iq[2 * k] as i32 - 128).unsigned_abs() as u16;
        let b = (iq[2 * k + 1] as i32 - 128).unsigned_abs() as u16;
        assert_eq!(mag[k], a.max(b) + a.min(b) / 4);
    }
    assert_eq!(&mag[37..], &[0xFFFF, 0xFFFF, 0xFFFF]);
    // (0, 255): distances 128 and 127
    let mut one = [0u16; 1];
    iq_to_magnitude_simd(&[0, 255], &mut one);
    assert_eq!(one[0], 128 + 31);
}
