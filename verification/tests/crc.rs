use hpr_skygate::crc::{modes_checksum, modes_fix_single_bit};

fn hex_to_bytes(s: &str) -> Vec<u8> {
    (0..s.len()).step_by(2).map(|i| u8::from_str_radix(&s[i..i + 2], 16).unwrap()).collect()
}

#[test]
fn test_df17_valid_crc() {
    let msg = hex_to_bytes("8D4840D6202CC371C32CE0576098");
    assert_eq!(modes_checksum(&msg), 0);
}

#[test]
fn test_df17_bad_crc() {
    // Corrupt one byte
    let mut msg = hex_to_bytes("8D4840D6202CC371C32CE0576098");
    msg[5] ^= 0x01;
    assert_ne!(modes_checksum(&msg), 0);
}

#[test]
fn test_df11_residual_is_icao() {
    let msg = hex_to_bytes("5D4840D6CC5765");
    let residual = modes_checksum(&msg);
    // Residual should be non-zero (it's the ICAO or related)
    assert_ne!(residual, 0);
    // The extracted ICAO should be 4840D6
    let icao = ((msg[1] as u32) << 16) | ((msg[2] as u32) << 8) | (msg[3] as u32);
    assert_eq!(icao, 0x4840D6);
    assert!(residual < 0x1000000);
}

#[test]
fn fix_single_bit_repairs_each_bit() {
    let good = hex_to_bytes("8D4840D6202CC371C32CE0576098");
    for bit in [0usize, 7, 40, 87, 111] {
        let mut msg = good.clone();
        msg[bit / 8] ^= 1 << (7 - bit % 8);
        assert_ne!(modes_checksum(&msg), 0);
        assert!(modes_fix_single_bit(&mut msg));
        assert_eq!(msg, good);
    }
}

#[test]
fn fix_single_bit_leaves_intact_and_hopeless_alone() {
    let good = hex_to_bytes("8D4840D6202CC371C32CE0576098");
    let mut msg = good.clone();
    assert!(modes_fix_single_bit(&mut msg));
    assert_eq!(msg, good);
    let mut bad = good.clone();
    bad[5] ^= 0xFF;
    bad[9] ^= 0x0F;
    let before = bad.clone();
    if !modes_fix_single_bit(&mut bad) {
        assert_eq!(bad, before);
    }
}

#[test]
fn checksum_short_message() {
    assert_eq!(modes_checksum(&[1, 2]), 0xffffff);
    // three parity bytes and no data: the residual is the parity field
    assert_eq!(modes_checksum(&[0x12, 0x34, 0x56]), 0x123456);
}

fn serial_crc(msg: &[u8]) -> u32 {
    let n = msg.len();
    if n < 3 {
        return 0xFFFFFF;
    }
    let mut crc: u32 = 0;
    for &byte in &msg[..n - 3] {
        for k in (0..8).rev() {
            let b = ((byte >> k) & 1) as u32;
            crc = if (crc ^ (b << 23)) & 0x800000 != 0 { (crc << 1) ^ 0xFFF409 } else { crc << 1 };
            crc &= 0xFFFFFF;
        }
    }
    (crc ^ ((msg[n - 3] as u32) << 16) ^ ((msg[n - 2] as u32) << 8) ^ msg[n - 1] as u32) & 0xFFFFFF
}

#[test]
fn table_checksum_matches_bit_serial_crc() {
    let mut x: u32 = 12345;
    for len in 0..20usize {
        for _ in 0..20 {
            let msg: Vec<u8> = (0..len)
                .map(|_| {
                    x = x.wrapping_mul(1103515245).wrapping_add(12345);
                    (x >> 16) as u8
                })
                .collect();
            let r = modes_checksum(&msg);
            assert_eq!(r, serial_crc(&msg));
            assert!(r < 0x1000000);
        }
    }
    assert_eq!(modes_checksum(&[0x80, 0, 0, 0]), serial_crc(&[0x80, 0, 0, 0]));
}
