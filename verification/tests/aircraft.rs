use hpr_skygate::aircraft::Store;
use hpr_skygate::enrichment::LearnedRoute;
use hpr_skygate::mode_s::ModeS;
use std::collections::HashMap;

fn default_msg() -> ModeS {
    ModeS {
        df: 0,
        icao: 0,
        receiver_id: 0,
        altitude: None,
        squawk: None,
        callsign: None,
        category: None,
        cpr_lat: None,
        cpr_lon: None,
        cpr_odd: None,
        airborne: true,
        gs: None,
        track: None,
        baro_rate: None,
        geom_rate: None,
        ias: None,
        tas: None,
        mag_heading: None,
        adsb_version: None,
        nic: None,
        nac_p: None,
        nac_v: None,
        sil: None,
        gva: None,
        sda: None,
        nic_baro: None,
        nav_altitude_mcp: None,
        nav_qnh: None,
        nav_heading: None,
        emergency: None,
        alt_gnss: None,
        addr_type: 0,
        valid: false,
    }
}

#[test]
fn test_df11_does_not_create() {
    let mut store = Store::new("");
    let msg = ModeS { df: 11, icao: 0xABCDEF, addr_type: 7, valid: true, ..default_msg() };
    store.update(msg);
    assert_eq!(store.aircraft_count(), 0);
}

#[test]
fn test_df17_creates_aircraft() {
    let mut store = Store::new("");
    let msg = ModeS {
        df: 17,
        icao: 0x4840D6,
        addr_type: 0,
        valid: true,
        callsign: Some("KLM1023".into()),
        ..default_msg()
    };
    store.update(msg);
    assert_eq!(store.aircraft_count(), 1);
    assert_eq!(store.map.get(&0x4840D6).unwrap().flight.as_deref(), Some("KLM1023"));
}

#[test]
fn invalid_and_null_address_are_ignored() {
    let mut store = Store::new("");
    store.update_at(ModeS { df: 17, icao: 0x123456, valid: false, ..default_msg() }, 1);
    store.update_at(ModeS { df: 17, icao: 0, valid: true, ..default_msg() }, 1);
    assert_eq!(store.aircraft_count(), 0);
    assert_eq!(store.messages_total, 0);
}

#[test]
fn mode_s_reply_needs_altitude_or_squawk() {
    let mut store = Store::new("");
    let bare = ModeS { df: 4, icao: 0x3C6586, addr_type: 7, valid: true, ..default_msg() };
    assert!(!store.update_at(bare, 10));
    assert_eq!(store.aircraft_count(), 0);
    assert_eq!(store.messages_total, 1);
    let alt = ModeS { df: 4, icao: 0x3C6586, addr_type: 7, valid: true, altitude: Some(37000), ..default_msg() };
    assert!(!store.update_at(alt, 20));
    let sq = ModeS { df: 5, icao: 0x3C6586, addr_type: 7, valid: true, squawk: Some(0o7700), ..default_msg() };
    store.update_at(sq, 30);
    let ac = store.map.get(&0x3C6586).unwrap();
    assert_eq!(ac.alt_baro, Some(37000));
    assert_eq!(ac.squawk, Some(0o7700));
    assert_eq!(ac.addr_type, 7);
    assert_eq!(ac.messages, 2);
    assert_eq!(ac.seen, 30);
    assert_eq!(store.messages_total, 3);
}

#[test]
fn adsb_merges_fields_and_keeps_known_ones() {
    let mut store = Store::new("");
    let first = ModeS {
        df: 17,
        icao: 0x4840D6,
        valid: true,
        altitude: Some(38000),
        category: Some(0xA3),
        ..default_msg()
    };
    store.update_at(first, 5);
    let second = ModeS {
        df: 17,
        icao: 0x4840D6,
        valid: true,
        baro_rate: Some(-64),
        airborne: false,
        ..default_msg()
    };
    store.update_at(second, 9);
    let ac = store.map.get(&0x4840D6).unwrap();
    assert_eq!(ac.alt_baro, Some(38000));
    assert_eq!(ac.category, Some(0xA3));
    assert_eq!(ac.baro_rate, Some(-64));
    assert!(ac.on_ground);
    assert_eq!(ac.messages, 2);
    assert_eq!(ac.seen, 9);
}

#[test]
fn database_and_learned_route_fill_in() {
    let mut db = HashMap::new();
    db.insert(0x4840D6u32, ("PH-BXA".to_string(), "B738".to_string()));
    db.insert(0x111111u32, (String::new(), "A320".to_string()));
    let cached = vec![(
        "KLM1023".to_string(),
        LearnedRoute { airports: Some("EHAM-WSSS".into()), airline: None, first_seen: 0, hits: 0 },
    )];
    let mut store = Store::with_data("http://api", db, cached);
    let msg = ModeS { df: 17, icao: 0x4840D6, valid: true, callsign: Some("KLM1023".into()), ..default_msg() };
    store.update_at(msg, 1);
    let ac = store.map.get(&0x4840D6).unwrap();
    assert_eq!(ac.reg.as_deref(), Some("PH-BXA"));
    assert_eq!(ac.typecode.as_deref(), Some("B738"));
    assert_eq!(ac.route.as_deref(), Some("EHAM-WSSS"));
    let other = ModeS { df: 17, icao: 0x111111, valid: true, ..default_msg() };
    store.update_at(other, 1);
    let ac2 = store.map.get(&0x111111).unwrap();
    assert_eq!(ac2.reg, None);
    assert_eq!(ac2.typecode.as_deref(), Some("A320"));
}

#[test]
fn cpr_frames_are_stored_per_receiver() {
    let mut store = Store::new("");
    let even = ModeS {
        df: 17,
        icao: 0x40621D,
        valid: true,
        receiver_id: 7,
        cpr_lat: Some(93000),
        cpr_lon: Some(51372),
        cpr_odd: Some(false),
        ..default_msg()
    };
    assert!(store.update_at(even, 100));
    let odd = ModeS {
        df: 17,
        icao: 0x40621D,
        valid: true,
        receiver_id: 7,
        cpr_lat: Some(74158),
        cpr_lon: Some(50194),
        cpr_odd: Some(true),
        ..default_msg()
    };
    assert!(store.update_at(odd, 200));
    let no_pos = ModeS { df: 17, icao: 0x40621D, valid: true, ..default_msg() };
    assert!(!store.update_at(no_pos, 300));
    let ac = store.map.get(&0x40621D).unwrap();
    let slot = ac.cpr_slots.get(&7).unwrap();
    assert_eq!(slot.even, Some((93000, 51372, 100)));
    assert_eq!(slot.odd, Some((74158, 50194, 200)));
    assert_eq!(ac.cpr_odd.unwrap().time, 200);
    assert_eq!(ac.cpr_even.unwrap().lat, 93000);
}

#[test]
fn stale_aircraft_are_reaped() {
    let mut store = Store::new("");
    store.update_at(ModeS { df: 17, icao: 0x000001, valid: true, ..default_msg() }, 0);
    store.update_at(ModeS { df: 17, icao: 0x000002, valid: true, ..default_msg() }, 30_000_000_000);
    let plan = store.reap_stale_at(60_000_000_000);
    assert!(plan.lookups.is_empty());
    assert_eq!(store.aircraft_count(), 1);
    assert!(store.map.get(&0x000002).is_some());
    store.reap_stale_at(89_999_999_999);
    assert_eq!(store.aircraft_count(), 1);
    store.reap_stale_at(90_000_000_000);
    assert_eq!(store.aircraft_count(), 0);
}
