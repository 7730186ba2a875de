use hpr_skygate::mode_s::{decode, decode_id13, decode_movement, Angle, Speed};

fn hex(s: &str) -> Vec<u8> {
    (0..s.len()).step_by(2).map(|i| u8::from_str_radix(&s[i..i + 2], 16).unwrap()).collect()
}

fn knots(s: Speed) -> f64 {
    match s {
        Speed::Eighths(e) => e as f64 / 8.0,
        Speed::Vector { vx, vy } => ((vx * vx + vy * vy) as f64).sqrt(),
    }
}

fn degrees(a: Angle) -> f64 {
    match a {
        Angle::Fraction { raw, steps } => raw as f64 * 360.0 / steps as f64,
        Angle::Vector { vx, vy } => ((vx as f64).atan2(vy as f64).to_degrees() + 360.0) % 360.0,
    }
}

#[test]
fn test_df17_ident() {
    // 8D4840D6202CC371C32CE0576098 - TC=4 ident, callsign=KLM1023
    let msg = hex("8D4840D6202CC371C32CE0576098");
    let m = decode(&msg).unwrap();
    assert_eq!(m.df, 17);
    assert_eq!(m.icao, 0x4840D6);
    assert_eq!(m.callsign.as_deref(), Some("KLM1023"));
    assert!(m.category.is_some());
}

#[test]
fn test_df17_velocity_ground() {
    // 8D485020994409940838175B284F - TC=19 subtype=1 velocity
    let msg = hex("8D485020994409940838175B284F");
    let m = decode(&msg).unwrap();
    assert_eq!(m.df, 17);
    assert_eq!(m.icao, 0x485020);
    assert!(m.gs.is_some());
    assert!(m.track.is_some());
    let gs = knots(m.gs.unwrap());
    assert!(gs > 0.0 && gs < 1000.0, "gs={}", gs);
}

#[test]
fn test_df17_airborne_position() {
    // 8D40621D58C382D690C8AC2863A7 - TC=11 airborne position
    let msg = hex("8D40621D58C382D690C8AC2863A7");
    let m = decode(&msg).unwrap();
    assert_eq!(m.df, 17);
    assert_eq!(m.icao, 0x40621D);
    assert!(m.cpr_lat.is_some());
    assert!(m.cpr_lon.is_some());
    assert!(m.cpr_odd.is_some());
    assert!(m.altitude.is_some());
}

#[test]
fn test_bad_crc_rejected() {
    let mut msg = hex("8D4840D6202CC371C32CE0576098");
    msg[7] ^= 0xFF; // corrupt
    assert!(decode(&msg).is_none());
}

#[test]
fn test_squawk_format() {
    // Squawk from decode_id13 should be 4-digit octal-style
    let bytes = [0x13, 0x50]; // some id13 value
    let sq = decode_id13(&bytes);
    assert!(sq <= 7777, "squawk {} > 7777", sq);
}

#[test]
fn velocity_components_and_rate() {
    let m = decode(&hex("8D485020994409940838175B284F")).unwrap();
    assert_eq!(m.gs, Some(Speed::Vector { vx: -8, vy: -159 }));
    let gs = knots(m.gs.unwrap());
    assert!((gs - 159.20).abs() < 0.01, "gs={}", gs);
    let trk = degrees(m.track.unwrap());
    assert!((trk - 182.88).abs() < 0.01, "track={}", trk);
    assert_eq!(m.baro_rate, Some(-832));
    assert_eq!(m.geom_rate, None);
    assert_eq!(m.nac_v, Some(0));
}

#[test]
fn airborne_position_fields() {
    let m = decode(&hex("8D40621D58C382D690C8AC2863A7")).unwrap();
    assert_eq!(m.altitude, Some(38000));
    assert_eq!(m.cpr_odd, Some(false));
    assert_eq!(m.cpr_lat, Some(93000));
    assert_eq!(m.cpr_lon, Some(51372));
    assert_eq!(m.nic, Some(9));
    assert!(m.airborne);
    assert!(m.valid);
    assert_eq!(m.addr_type, 0);
}

#[test]
fn single_bit_error_is_repaired() {
    let mut msg = hex("8D4840D6202CC371C32CE0576098");
    msg[6] ^= 0x10;
    let m = decode(&msg).unwrap();
    assert_eq!(m.callsign.as_deref(), Some("KLM1023"));
}

#[test]
fn short_and_unknown_formats() {
    assert!(decode(&[0x8D, 0x48, 0x40]).is_none());
    // DF 24 is not handled
    assert!(decode(&hex("C0000000000000")).is_none());
}

#[test]
fn df11_needs_zero_residual() {
    assert!(decode(&hex("5D4840D6CC5765")).is_none());
}

#[test]
fn squawk_digits() {
    for hi in 0u8..=0x1F {
        for lo in [0u8, 0x15, 0x2A, 0xFF] {
            let sq = decode_id13(&[hi, lo]);
            assert!(sq <= 7777);
            assert!(sq % 10 <= 7 && (sq / 10) % 10 <= 7 && (sq / 100) % 10 <= 7);
        }
    }
    assert_eq!(decode_id13(&[0x00, 0x00]), 0);
}

#[test]
fn movement_speed_steps() {
    assert_eq!(decode_movement(0), None);
    assert_eq!(decode_movement(1), Some(Speed::Eighths(0)));
    assert_eq!(decode_movement(2), Some(Speed::Eighths(1)));
    assert_eq!(knots(decode_movement(9).unwrap()), 1.0);
    assert_eq!(knots(decode_movement(13).unwrap()), 2.0);
    assert_eq!(knots(decode_movement(39).unwrap()), 15.0);
    assert_eq!(knots(decode_movement(94).unwrap()), 70.0);
    assert_eq!(knots(decode_movement(123).unwrap()), 170.0);
    assert_eq!(knots(decode_movement(124).unwrap()), 175.0);
    assert_eq!(decode_movement(125), None);
}
