use hpr_skygate::api::{content_type, query_param, route_request, Route};
use hpr_skygate::client::ClientState;
use hpr_skygate::ingest::{decode_wire_frame, unescape_payload, IngestTimers};

fn route(m: &str, p: &str) -> Route {
    route_request(m, p, true, false)
}

#[test]
fn routes_decoded_resources() {
    assert_eq!(route("GET", "/api/aircraft"), Route::AircraftJson);
    assert_eq!(route("GET", "/re-api/?box=1,2,3,4"), Route::Bincraft);
    assert_eq!(route("GET", "/data/aircraft.binCraft"), Route::Bincraft);
    assert_eq!(route("GET", "/api/trace/4840d6"), Route::Trace { icao: 0x4840D6 });
    assert_eq!(route("GET", "/api/trace/xyz"), Route::TraceBadHex);
    assert_eq!(route_request("GET", "/api/aircraft", false, false), Route::DecodeOff);
    assert_eq!(route_request("GET", "/api/trace/4840d6", false, false), Route::DecodeOff);
}

#[test]
fn routes_feeder_endpoints() {
    assert_eq!(route("POST", "/api/feeders/kick"), Route::Kick);
    assert_eq!(route("GET", "/api/feeders/kick"), Route::FeederByKey { key: "kick".to_string() });
    assert_eq!(
        route("POST", "/api/feeders/abc-123/location"),
        Route::SetLocation { uuid: "abc-123".to_string() }
    );
    assert_eq!(route("POST", "/api/feeders/location"), Route::SetLocation { uuid: String::new() });
    assert_eq!(route("GET", "/api/feeders"), Route::FeedersList);
    assert_eq!(route("GET", "/api/feeders/"), Route::Dashboard);
    assert_eq!(route("GET", "/api/alerts?limit=7"), Route::Alerts { limit: 7 });
    assert_eq!(route("GET", "/api/alerts?x=1&limit=bad"), Route::Alerts { limit: 50 });
    assert_eq!(route("GET", "/api/alerts"), Route::Alerts { limit: 50 });
    assert_eq!(route("GET", "/health?x"), Route::Health);
}

#[test]
fn routes_static_files() {
    assert_eq!(route_request("GET", "/", true, true), Route::StaticFile { path: "index.html".to_string() });
    assert_eq!(
        route_request("GET", "//js/../app.js", true, true),
        Route::StaticFile { path: "js//app.js".to_string() }
    );
    assert_eq!(
        route_request("GET", "/../etc/passwd", true, true),
        Route::StaticFile { path: "etc/passwd".to_string() }
    );
    assert_eq!(route_request("GET", "/..//..", true, true), Route::StaticFile { path: String::new() });
    assert_eq!(route_request("GET", "/other", true, false), Route::Dashboard);
}

#[test]
fn query_params() {
    assert_eq!(query_param("a=1&limit=20&limit=30", "limit"), Some("20".to_string()));
    assert_eq!(query_param("limit&limit=5", "limit"), Some("5".to_string()));
    assert_eq!(query_param("x=1", "limit"), None);
    assert_eq!(query_param("limit=a=b", "limit"), Some("a=b".to_string()));
}

#[test]
fn content_types() {
    assert_eq!(content_type("app.js"), "application/javascript");
    assert_eq!(content_type("style.css"), "text/css");
    assert_eq!(content_type("index.html"), "text/html");
    assert_eq!(content_type("x.svg"), "image/svg+xml");
    assert_eq!(content_type("blob"), "application/octet-stream");
}

fn beast_long(payload: &[u8]) -> Vec<u8> {
    let mut w = vec![0x1a, 0x33];
    let mut body = vec![0, 0, 0, 0, 0x1a, 1, 0x40];
    body.extend_from_slice(payload);
    for b in body {
        w.push(b);
        if b == 0x1a {
            w.push(0x1a);
        }
    }
    w
}

fn hex(s: &str) -> Vec<u8> {
    (0..s.len()).step_by(2).map(|i| u8::from_str_radix(&s[i..i + 2], 16).unwrap()).collect()
}

#[test]
fn unescapes_and_decodes_wire_frames() {
    let msg = hex("8D4840D6202CC371C32CE0576098");
    let w = beast_long(&msg);
    assert_eq!(unescape_payload(&w), Some(msg.clone()));
    let m = decode_wire_frame(&w).unwrap();
    assert_eq!(m.icao, 0x4840D6);
    // cut short
    assert_eq!(unescape_payload(&w[..w.len() - 1]), None);
    // dangling escape at the end
    assert_eq!(unescape_payload(&[0x1a, 0x31, 1, 0x1a]), None);
    assert_eq!(unescape_payload(&[0x1a, 0x31, 1, 2, 3, 4, 5, 6, 7, 0xAA, 0xBB]), Some(vec![0xAA, 0xBB]));
    // Mode-AC frames are not decoded
    assert!(decode_wire_frame(&[0x1a, 0x31, 1, 2, 3, 4, 5, 6, 7, 0xAA, 0xBB]).is_none());
}

#[test]
fn timers_fire_on_schedule() {
    let mut t = IngestTimers::new(0);
    let a = t.tick(10_000_000);
    assert!(!a.flush);
    let a = t.tick(60_000_000);
    assert!(a.flush && !a.rebuild_caches && !a.rebuild_trace);
    let a = t.tick(1_000_000_000);
    assert!(a.flush && a.rebuild_caches && !a.rebuild_trace);
    let a = t.tick(5_000_000_000);
    assert!(a.flush && a.rebuild_caches && a.rebuild_trace);
    assert_eq!(t.last_trace_rebuild, 5_000_000_000);
}

fn short_frame() -> Vec<u8> {
    vec![0x1a, 0x32, 0, 0, 0, 0, 0, 1, 0x50, 0x5D, 0x48, 0x40, 0xD6, 0xCC, 0x57, 0x65]
}

#[test]
fn client_forwards_frames() {
    let mut c = ClientState::new("10.0.0.1:5000".to_string());
    let f = short_frame();
    let out = c.feed_at(&f, true, 0);
    assert_eq!(out, vec![(f.clone(), false)]);
    assert_eq!(c.msg_count, 1);
    assert_eq!(c.bytes_recv, f.len() as u64);
    // split across two reads
    assert!(c.feed_at(&f[..5], false, 1).is_empty());
    assert_eq!(c.feed_at(&f[5..], false, 2), vec![(f.clone(), false)]);
}

#[test]
fn client_room_for_counters() {
    let mut c = ClientState::new("10.0.0.4:5000".to_string());
    assert!(c.has_room_for(1 << 20));
    c.bytes_recv = u64::MAX - 10;
    assert!(c.has_room_for(10));
    assert!(!c.has_room_for(11));
    c.bytes_recv = 0;
    c.msg_count = u64::MAX - 10;
    assert!(c.feed_at(&[0x1a, 0x32, 0], false, 0).is_empty());
    // three bytes are held: they count against the message counter too
    assert!(c.has_room_for(7));
    assert!(!c.has_room_for(8));
}

#[test]
fn client_locks_uuid_and_prepends() {
    let mut c = ClientState::new("10.0.0.2:5000".to_string());
    let mut uuid = vec![0x1a, 0xe4];
    uuid.extend_from_slice(b"a1b2c3d4-e5f6-7890-abcd-ef1234567890");
    assert!(c.feed_at(&uuid, true, 0).is_empty());
    assert!(c.id_locked);
    assert_eq!(c.receiver_id, 0xa1b2c3d4e5f67890);
    assert_eq!(c.uuid.as_deref(), Some("a1b2c3d4-e5f6-7890-abcd-ef1234567890"));
    let f = short_frame();
    let out = c.feed_at(&f, true, 1);
    assert_eq!(out.len(), 2);
    assert_eq!(&out[0].0[..2], &[0x1a, 0xe3]);
    assert_eq!(out[1].0, f);
}

#[test]
fn client_forwards_all_but_uuid_in_order_and_keeps_identity() {
    let mut c = ClientState::new("10.0.0.5:5000".to_string());
    let f = short_frame();
    let mut g = short_frame();
    g[8] = 0x51;
    let mut uuid = vec![0x1a, 0xe4];
    uuid.extend_from_slice(b"a1b2c3d4-e5f6-7890-abcd-ef1234567890");
    let mut data = f.clone();
    data.extend_from_slice(&uuid);
    data.extend_from_slice(&g);
    let before = c.bytes_recv;
    let out = c.feed_at(&data, false, 0);
    assert_eq!(out.iter().map(|(b, _)| b.clone()).collect::<Vec<_>>(), vec![f.clone(), g.clone()]);
    assert_eq!(c.bytes_recv, before + data.len() as u64);
    assert!(c.id_locked);
    // a second UUID frame changes nothing once the identity is locked
    let mut other = vec![0x1a, 0xe4];
    other.extend_from_slice(b"11111111-2222-3333-4444-555555555555");
    assert!(c.feed_at(&other, false, 1).is_empty());
    assert_eq!(c.receiver_id, 0xa1b2c3d4e5f67890);
    assert_eq!(c.uuid.as_deref(), Some("a1b2c3d4-e5f6-7890-abcd-ef1234567890"));
}

#[test]
fn client_marks_garbage_over_rate() {
    let mut c = ClientState::new("10.0.0.3:5000".to_string());
    let f = short_frame();
    let mut data = Vec::new();
    for _ in 0..10842 {
        data.extend_from_slice(&f);
    }
    let out = c.feed_at(&data, false, 0);
    assert_eq!(out.len(), 10842);
    assert!(out.iter().all(|(_, g)| !g));
    // the window closes at 2 s: 10843 frames in 2 s is above 5420 per second
    let out = c.feed_at(&f, false, 2_000_000_000);
    assert_eq!(out, vec![(f.clone(), true)]);
    assert!(c.garbage);
}
