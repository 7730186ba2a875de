use hpr_skygate::bincraft::{encode_bincraft, BincraftFields};

fn empty(hex: u32) -> BincraftFields {
    BincraftFields {
        hex,
        seen_ds: 0,
        position: None,
        baro_rate: None,
        geom_rate: None,
        alt_baro: None,
        alt_geom: None,
        squawk: None,
        gs: None,
        track: None,
        mag_heading: None,
        tas: None,
        ias: None,
        messages: 0,
        category: None,
        nic: None,
        flight: None,
    }
}

#[test]
fn bincraft_minimal_record() {
    let r = encode_bincraft(&empty(0xABCDEF));
    assert_eq!(&r[0..4], &[0xEF, 0xCD, 0xAB, 0x00]);
    assert!(r[4..].iter().all(|&b| b == 0));
}

#[test]
fn bincraft_full_record() {
    let mut f = empty(0x3C6586);
    f.seen_ds = -2;
    f.position = Some((13_404_954, 52_520_008, 15));
    f.baro_rate = Some(-8);
    f.geom_rate = Some(4);
    f.alt_baro = Some(1400);
    f.alt_geom = Some(1410);
    f.squawk = Some(0x1200);
    f.gs = Some(4505);
    f.track = Some(-90);
    f.mag_heading = Some(900);
    f.tas = Some(460);
    f.ias = Some(290);
    f.messages = 70_000;
    f.category = Some(0xA3);
    f.nic = Some(8);
    f.flight = Some(b"DLH400XYZ".to_vec());
    let r = encode_bincraft(&f);
    assert_eq!(&r[4..8], &(-2i32).to_le_bytes());
    assert_eq!(&r[8..12], &13_404_954i32.to_le_bytes());
    assert_eq!(&r[12..16], &52_520_008i32.to_le_bytes());
    assert_eq!(&r[16..18], &(-8i16).to_le_bytes());
    assert_eq!(&r[18..20], &4i16.to_le_bytes());
    assert_eq!(&r[20..22], &1400i16.to_le_bytes());
    assert_eq!(&r[22..24], &1410i16.to_le_bytes());
    assert_eq!(&r[32..34], &0x1200u16.to_le_bytes());
    assert_eq!(&r[34..36], &4505i16.to_le_bytes());
    assert_eq!(&r[40..42], &(-90i16).to_le_bytes());
    assert_eq!(&r[44..46], &900i16.to_le_bytes());
    assert_eq!(&r[56..58], &460u16.to_le_bytes());
    assert_eq!(&r[58..60], &290u16.to_le_bytes());
    assert_eq!(&r[62..64], &[0xFF, 0xFF]);
    assert_eq!((r[64], r[65]), (0xA3, 8));
    assert_eq!((r[73], r[74], r[75], r[76]), (8 | 16 | 32 | 64 | 128, 1 | 2 | 8 | 64, 3, 4));
    assert_eq!(&r[78..86], b"DLH400XY");
    assert_eq!(&r[108..112], &15i32.to_le_bytes());
    for k in (24..32).chain(36..40).chain(46..56).chain(60..62).chain(66..73).chain([77]).chain(86..108) {
        assert_eq!(r[k], 0, "byte {}", k);
    }
}

#[test]
fn bincraft_short_callsign_and_no_position() {
    let mut f = empty(1);
    f.flight = Some(b"AB".to_vec());
    f.messages = 300;
    let r = encode_bincraft(&f);
    assert_eq!(&r[78..86], &[b'A', b'B', 0, 0, 0, 0, 0, 0]);
    assert_eq!(r[73], 8);
    assert_eq!(&r[62..64], &300u16.to_le_bytes());
    assert!(r[8..16].iter().all(|&b| b == 0));
    assert!(r[108..112].iter().all(|&b| b == 0));
}
