use hpr_skygate::ais::vessel::VesselStore;

fn position_frame(mmsi: u32, lon: i32, lat: i32, sog: u16, cog: u16, hdg: u16) -> [u8; 19] {
    let mut d = [0u8; 19];
    d[0] = 0x01;
    d[1..5].copy_from_slice(&mmsi.to_le_bytes());
    d[5..9].copy_from_slice(&lon.to_le_bytes());
    d[9..13].copy_from_slice(&lat.to_le_bytes());
    d[13..15].copy_from_slice(&sog.to_le_bytes());
    d[15..17].copy_from_slice(&cog.to_le_bytes());
    d[17..19].copy_from_slice(&hdg.to_le_bytes());
    d
}

#[test]
fn position_frames_fill_vessels() {
    let mut s = VesselStore::new();
    s.update_position_at(&position_frame(477553000, -73_000_000, 8_000_000, 123, 2405, 511), 5);
    let v = s.map.get(&477553000).unwrap();
    assert_eq!(v.lon, Some(-73_000_000));
    assert_eq!(v.lat, Some(8_000_000));
    assert_eq!(v.sog, Some(123));
    assert_eq!(v.cog, Some(2405));
    assert_eq!(v.hdg, None);
    assert_eq!(v.seen, 5);
    s.update_position_at(&position_frame(477553000, 1, 2, 0, 0, 90), 9);
    assert_eq!(s.map.get(&477553000).unwrap().hdg, Some(90));
    assert_eq!(s.count(), 1);
}

#[test]
fn static_frames_keep_known_texts() {
    let mut s = VesselStore::new();
    let mut d = [0u8; 44];
    d[0] = 0x05;
    d[1..5].copy_from_slice(&351759000u32.to_le_bytes());
    d[33..37].copy_from_slice(&9134270u32.to_le_bytes());
    s.update_static_at(&d, "MSC ODESSA", "3FOB5", 70, 1);
    s.update_static_at(&d, "", "", 0, 2);
    let v = s.map.get(&351759000).unwrap();
    assert_eq!(v.name.as_deref(), Some("MSC ODESSA"));
    assert_eq!(v.callsign.as_deref(), Some("3FOB5"));
    assert_eq!(v.ship_type, Some(70));
    assert_eq!(v.imo, Some(9134270));
    assert_eq!(v.seen, 2);
}

#[test]
fn vessels_expire_after_half_an_hour() {
    let mut s = VesselStore::new();
    s.update_position_at(&position_frame(1, 0, 0, 0, 0, 0), 0);
    s.update_position_at(&position_frame(2, 0, 0, 0, 0, 0), 1_000_000_000_000);
    s.reap_stale_at(1_799_999_999_999);
    assert_eq!(s.count(), 2);
    s.reap_stale_at(1_800_000_000_000);
    assert_eq!(s.count(), 1);
    assert!(s.map.get(&2).is_some());
}
