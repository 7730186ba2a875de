use hpr_skygate::feeder::rank_descending;
use hpr_skygate::feeder::feeder_tally;
use hpr_skygate::aircraft::Store;
use hpr_skygate::alerts::{Alert, AlertStore};
use hpr_skygate::feeder::{block_matches, feeder_host};
use hpr_skygate::mode_s::ModeS;
use hpr_skygate::sbs::{clock_fields, epoch_days_to_date};
use hpr_skygate::wire::encode_static;
use hpr_skygate::writer::{OutputWriter, WriteOutcome, FLUSH_SIZE, SENDQ_MAX};

fn msg(icao: u32) -> ModeS {
    ModeS {
        df: 17,
        icao,
        receiver_id: 0,
        altitude: None,
        squawk: None,
        callsign: None,
        category: None,
        cpr_lat: None,
        cpr_lon: None,
        cpr_odd: None,
        airborne: true,
        gs: None,
        track: None,
        baro_rate: None,
        geom_rate: None,
        ias: None,
        tas: None,
        mag_heading: None,
        adsb_version: None,
        nic: None,
        nac_p: None,
        nac_v: None,
        sil: None,
        gva: None,
        sda: None,
        nic_baro: None,
        nav_altitude_mcp: None,
        nav_qnh: None,
        nav_heading: None,
        emergency: None,
        alt_gnss: None,
        addr_type: 0,
        valid: true,
    }
}

#[test]
fn static_frame_layout() {
    let mut store = Store::new("");
    store.update_at(ModeS { squawk: Some(7700), category: Some(0xA3), ..msg(0x4840D6) }, 1);
    assert!(encode_static(store.map.get(&0x4840D6).unwrap()).is_none());
    store.update_at(ModeS { callsign: Some("KLM1023".into()), ..msg(0x4840D6) }, 2);
    let f = encode_static(store.map.get(&0x4840D6).unwrap()).unwrap();
    assert_eq!(&f[0..4], &[0x05, 0x48, 0x40, 0xD6]);
    assert_eq!(&f[4..12], b"KLM1023\0");
    assert_eq!(f[12], 0xA3);
    assert_eq!(&f[13..17], b"7700");
    assert!(f[17..44].iter().all(|b| *b == 0));
}

#[test]
fn static_frame_squawk_padding_and_cuts() {
    let mut store = Store::new("");
    store.update_at(ModeS { squawk: Some(12), callsign: Some("ABCDEFGHIJ".into()), ..msg(1) }, 1);
    let f = encode_static(store.map.get(&1).unwrap()).unwrap();
    assert_eq!(&f[4..12], b"ABCDEFGH");
    assert_eq!(&f[13..17], b"0012");
    store.update_at(ModeS { squawk: Some(12345), ..msg(1) }, 2);
    let g = encode_static(store.map.get(&1).unwrap()).unwrap();
    assert_eq!(&g[13..17], b"1234");
}

#[test]
fn feed_dates() {
    assert_eq!(epoch_days_to_date(0), (1970, 1, 1));
    assert_eq!(epoch_days_to_date(364), (1970, 12, 5));
    assert_eq!(epoch_days_to_date(365), (1971, 1, 1));
    assert_eq!(epoch_days_to_date(59), (1970, 2, 28));
    assert_eq!(clock_fields(90061, 5), (1970, 1, 2, 1, 1, 1, 5));
}

fn alert(n: u64) -> Alert {
    Alert {
        ts_ms: n,
        level: "warn".into(),
        kind: "k".into(),
        message: format!("m{}", n),
        target: "t".into(),
    }
}

#[test]
fn alerts_keep_the_newest() {
    let mut s = AlertStore::new(2);
    s.push(alert(1));
    s.push(alert(2));
    s.push(alert(3));
    let r = s.recent(5);
    assert_eq!(r.len(), 2);
    assert_eq!(r[0].ts_ms, 3);
    assert_eq!(r[1].ts_ms, 2);
    assert_eq!(s.recent(1)[0].message, "m3");
    let mut z = AlertStore::new(0);
    z.push(alert(1));
    z.push(alert(2));
    assert_eq!(z.recent(9).len(), 1);
    assert_eq!(z.recent(9)[0].ts_ms, 2);
}

#[test]
fn feeder_hosts_and_blocks() {
    assert_eq!(feeder_host("10.0.0.7:40122"), "10.0.0.7");
    assert_eq!(feeder_host("nocolon"), "nocolon");
    let addr = "10.0.0.7:40122".to_string();
    let uuid = Some("a1b2".to_string());
    assert!(block_matches(&addr, &uuid, &"10.0.0.7".to_string()));
    assert!(block_matches(&addr, &uuid, &"10.0.0.7:40122".to_string()));
    assert!(block_matches(&addr, &uuid, &"a1b2".to_string()));
    assert!(!block_matches(&addr, &None, &"a1b2".to_string()));
    assert!(!block_matches(&addr, &uuid, &"10.0.0".to_string()));
}

#[test]
fn writer_flushes_by_size_and_timer() {
    let mut w = OutputWriter::new(50, 1, 0);
    w.add_client(0);
    assert!(!w.append(&[1, 2, 3], 10));
    assert!(!w.flush_due(49_999_999));
    assert!(w.flush_due(50_000_000));
    assert!(!w.timer_flush(49_999_999));
    assert_eq!(w.client(0).queue().len(), 0);
    assert!(w.timer_flush(50_000_000));
    assert_eq!(w.client(0).queue().len(), 3);
    assert!(!w.flush(60_000_000));
    assert!(!w.timer_flush(200_000_000));
    assert!(w.wants_write(0));
    w.record_write(0, WriteOutcome::Wrote(2), 70_000_000);
    assert_eq!(w.client(0).queue().iter().copied().collect::<Vec<u8>>(), vec![3]);
    // reaching the flush size flushes at once and empties the buffer
    assert!(!w.append(&vec![5u8; FLUSH_SIZE - 1], 80_000_000));
    assert_eq!(w.client(0).queue().len(), 1);
    assert!(w.append(&[6, 6], 90_000_000));
    assert_eq!(w.client(0).queue().len(), 1 + FLUSH_SIZE + 1);
    assert!(!w.flush_due(1_000_000_000));
    assert!(!w.heartbeat_flush(1_089_999_999));
    assert!(w.heartbeat_flush(1_090_000_000));
    assert_eq!(w.client(0).queue().len(), 1 + FLUSH_SIZE + 1 + 11);
    assert_eq!(w.client(0).bytes_sent, (3 + FLUSH_SIZE + 1 + 11) as u64);
    // the heartbeat also carries whatever was buffered
    assert!(!w.append(&[9], 1_100_000_000));
    assert!(w.heartbeat_flush(2_090_000_000));
    assert_eq!(w.client(0).queue().len(), 1 + FLUSH_SIZE + 1 + 11 + 1 + 11);
}

#[test]
fn writer_drops_half_on_overflow_and_reaps_dead() {
    let mut w = OutputWriter::new(50, 60, 0);
    w.add_client(0);
    w.add_client(0);
    assert!(w.append(&vec![7u8; SENDQ_MAX + 1], 1_000));
    assert_eq!(w.client(0).queue().len(), 0);
    assert!(w.client(0).drop_half);
    assert_eq!(w.client(0).drop_until, 2_000_001_000);
    w.append(&[1], 2_000);
    w.flush(2_000);
    assert_eq!(w.client(0).queue().len(), 0);
    w.append(&[2], 3_000);
    w.flush(3_000);
    assert_eq!(w.client(0).queue().len(), 1);
    assert_eq!(w.client(1).queue().len(), 1);
    w.record_write(1, WriteOutcome::Closed, 4_000);
    let kept = w.take_dead();
    assert_eq!(kept, vec![true, false]);
    assert_eq!(w.client_count(), 1);
    w.record_write(0, WriteOutcome::WouldBlock, 6_000_000_000);
    assert!(w.client(0).dead);
}

#[test]
fn feeder_ranking_is_stable_descending() {
    let keys = [5u64, 9, 5, 1, 9, 7];
    assert_eq!(rank_descending(&keys, 10), vec![1, 4, 5, 0, 2, 3]);
    assert_eq!(rank_descending(&keys, 3), vec![1, 4, 5]);
    assert_eq!(rank_descending(&keys, 0), Vec::<usize>::new());
    assert_eq!(rank_descending(&[], 10), Vec::<usize>::new());
    let many: Vec<u64> = (0..25u64).map(|i| i % 4).collect();
    let top = rank_descending(&many, 10);
    assert_eq!(top, vec![3, 7, 11, 15, 19, 23, 2, 6, 10, 14]);
}

#[test]
fn feeder_tally_counts() {
    let t = feeder_tally(&[(10, false), (5, true), (0, false), (7, true), (3, true)]);
    assert_eq!((t.total, t.active, t.garbage, t.total_messages), (5, 2, 3, 25));
    let e = feeder_tally(&[]);
    assert_eq!((e.total, e.active, e.garbage, e.total_messages), (0, 0, 0, 0));
}
