use hpr_skygate::nmea::{aivdm, bits_to_nmea_payload, nmea_checksum};
use hpr_skygate::sdr::ais_demod::{crc16_ccitt, AisHdlc};
use hpr_skygate::sdr_tool::{
    detect_preamble, fix_single_bit, modes_crc, payload_to_nmea_chars, AisDecoder, MagLut,
};

fn armor(v: u8) -> char {
    (if v < 40 { v + 48 } else { v + 56 }) as char
}

fn expected_payload(data: &[u8]) -> String {
    let bits: Vec<u8> = data.iter().flat_map(|b| (0..8).rev().map(move |k| (b >> k) & 1)).collect();
    bits.chunks(6)
        .filter(|c| c.len() == 6)
        .map(|c| armor(c.iter().fold(0, |a, b| (a << 1) | b)))
        .collect()
}

fn sentence(payload: &str, fill: u8) -> String {
    let body = format!("AIVDM,1,1,,A,{},{}", payload, fill);
    let cs = body.bytes().fold(0u8, |a, b| a ^ b);
    format!("!{}*{:02X}", body, cs)
}

#[test]
fn armoring_and_checksum() {
    assert_eq!(bits_to_nmea_payload(&[0x04, 0x10, 0x41]), "1111");
    assert_eq!(bits_to_nmea_payload(&[0xFF]), "w");
    assert_eq!(payload_to_nmea_chars(&[0x12, 0x34, 0x56, 0x78]), expected_payload(&[0x12, 0x34, 0x56, 0x78]));
    assert_eq!(nmea_checksum("AIVDM,1,1,,A,15N4cJ`005Ip000,0"), 0x2D);
    assert_eq!(aivdm(&"15N4cJ`005Ip000".to_string(), 0), "!AIVDM,1,1,,A,15N4cJ`005Ip000,0*2D");
    assert_eq!(aivdm(&"1w".to_string(), 4), sentence("1w", 4));
    assert_eq!(aivdm(&"1w".to_string(), 12), sentence("1w", 12));
    assert_eq!(aivdm(&"1w".to_string(), 255), sentence("1w", 255));
}

#[test]
fn crc16_ccitt_check_value() {
    // CRC-16/X-25 style check over "123456789" with init 0xFFFF and final inversion
    // of the MSB-first CCITT register gives 0xD64E (CRC-16/GENIBUS).
    assert_eq!(crc16_ccitt(b"123456789"), 0xD64E);
}

/// Drives the deframer with the levels that decode to `bits`.
fn feed_bits(h: &mut AisHdlc, sr: &mut u8, bits: &[u8], out: &mut Vec<String>) {
    for &b in bits {
        let top = (*sr >> 7) & 1;
        let level = if b == 1 { top == 1 } else { top == 0 };
        *sr = (*sr << 1) | b;
        if let Some(s) = h.push_level(level) {
            out.push(s);
        }
    }
}

fn byte_bits(b: u8) -> Vec<u8> {
    (0..8).rev().map(|k| (b >> k) & 1).collect()
}

fn stuffed(data: &[u8]) -> Vec<u8> {
    let mut out = Vec::new();
    let mut ones = 0;
    for &b in data {
        for bit in byte_bits(b) {
            out.push(bit);
            if bit == 1 {
                ones += 1;
                if ones == 5 {
                    out.push(0);
                    ones = 0;
                }
            } else {
                ones = 0;
            }
        }
    }
    out
}

#[test]
fn hdlc_deframes_a_frame() {
    // no run of five 1s in payload or check bytes, so no stuffing
    let payload = [0x14u8, 0x22, 0xA0, 0x55, 0x0F];
    let crc = crc16_ccitt(&payload);
    let mut frame = payload.to_vec();
    frame.push((crc >> 8) as u8);
    frame.push(crc as u8);
    let mut h = AisHdlc::new();
    let mut sr = 0u8;
    let mut out = Vec::new();
    feed_bits(&mut h, &mut sr, &byte_bits(0x7E), &mut out);
    feed_bits(&mut h, &mut sr, &stuffed(&frame), &mut out);
    feed_bits(&mut h, &mut sr, &byte_bits(0x7E), &mut out);
    assert_eq!(out, vec![sentence(&expected_payload(&payload), 0)]);
    assert_eq!(h.frames_ok, 1);
    assert_eq!(h.frames_crc_fail, 0);
}

#[test]
fn hdlc_counts_a_bad_frame() {
    let frame = [0x14u8, 0x3F, 0xA0, 0x55, 0x0F, 0x00, 0x00];
    let mut h = AisHdlc::new();
    let mut sr = 0u8;
    let mut out = Vec::new();
    feed_bits(&mut h, &mut sr, &byte_bits(0x7E), &mut out);
    feed_bits(&mut h, &mut sr, &stuffed(&frame), &mut out);
    feed_bits(&mut h, &mut sr, &byte_bits(0x7E), &mut out);
    assert!(out.is_empty());
    assert_eq!(h.frames_crc_fail, 1);
}

/// X.25 frame check sequence bits (LSB first) of `bits`.
fn fcs_bits(bits: &[u8]) -> Vec<u8> {
    let mut crc: u16 = 0xFFFF;
    for &b in bits {
        if ((b as u16) ^ crc) & 1 != 0 {
            crc = (crc >> 1) ^ 0x8408;
        } else {
            crc >>= 1;
        }
    }
    let fcs = !crc;
    (0..16).map(|k| ((fcs >> k) & 1) as u8).collect()
}

fn tool_stuffed(bits: &[u8]) -> Vec<u8> {
    let mut out = Vec::new();
    let mut ones = 0;
    for &bit in bits {
        out.push(bit);
        if bit == 1 {
            ones += 1;
            if ones == 5 {
                out.push(0);
                ones = 0;
            }
        } else {
            ones = 0;
        }
    }
    out
}

#[test]
fn tool_decoder_emits_sentence() {
    // 12 payload bits: two 6-bit groups
    let data: Vec<u8> = vec![0, 0, 0, 0, 0, 1, 1, 1, 1, 1, 1, 1];
    let mut frame_bits = data.clone();
    frame_bits.extend(fcs_bits(&data));
    let mut stream: Vec<u8> = Vec::new();
    for k in 0..24 {
        stream.push((k % 2) as u8);
    }
    stream.push(1); // breaks training (same as previous 1)
    stream.extend([1, 1, 1, 1, 0]); // rest of the start flag
    stream.extend(tool_stuffed(&frame_bits));
    stream.extend([0, 1, 1, 1, 1, 1, 1]);
    let mut dec = AisDecoder::new();
    let mut out = Vec::new();
    let mut stats = (0u64, 0u64);
    let mut prev = false;
    for &b in &stream {
        let level = if b == 1 { prev } else { !prev };
        prev = level;
        dec.feed_level(level, &mut out, &mut stats);
    }
    assert_eq!(stats, (1, 0));
    assert_eq!(out, vec![sentence("1w", 0)]);
}

#[test]
fn tool_mag_lut_matches_float() {
    let lut = MagLut::new();
    for i in (0..=255u8).step_by(5) {
        for q in 0..=255u8 {
            let iv = i as f64 - 127.5;
            let qv = q as f64 - 127.5;
            assert_eq!(lut.lookup(i, q), (iv * iv + qv * qv).sqrt() as u16);
        }
    }
    let mut mag = [0u16; 2];
    lut.convert(&[0, 0, 255, 255], &mut mag);
    assert_eq!(mag, [180, 180]);
}

#[test]
fn tool_preamble_and_crc() {
    let mut m = vec![2u16; 240];
    for p in [0, 2, 7, 9] {
        m[p] = 100;
    }
    assert!(detect_preamble(&m, 0));
    assert!(!detect_preamble(&m, 1));
    assert_eq!(modes_crc(&[1, 2]), 0xFFFFFF);
    assert_eq!(modes_crc(&[0, 0x12, 0x34, 0x56]), 0x123456);
    let mut frame = [0u8; 14];
    // an all-zero frame has residual 0: nothing to fix
    assert!(fix_single_bit(&mut frame, 112));
    assert_eq!(frame, [0u8; 14]);
}

#[test]
fn armor_then_unpack_gives_the_bits_back() {
    let data: Vec<u8> = vec![0x15, 0xA3, 0xFF, 0x00, 0x7C, 0x81, 0x5E];
    let payload = bits_to_nmea_payload(&data);
    let bits = hpr_skygate::ais::decode::payload_to_bits(&payload);
    let n = 6 * (8 * data.len() / 6);
    let expected: Vec<u8> = (0..n).map(|k| (data[k / 8] >> (7 - k % 8)) & 1).collect();
    assert_eq!(bits, expected);
}
