use hpr_skygate::enrichment::{Enrichment, LearnedRoute};

fn route(airports: &str) -> LearnedRoute {
    LearnedRoute { airports: Some(airports.to_string()), airline: None, first_seen: 1, hits: 0 }
}

#[test]
fn cached_routes_later_entry_wins() {
    let cached = vec![
        ("THA640".to_string(), route("VTBS-RJTT")),
        ("KLM1023".to_string(), route("EHAM-WSSS")),
        ("THA640".to_string(), route("VTBS-RJAA")),
    ];
    let mut e = Enrichment::new("http://api", cached);
    assert_eq!(e.route_count(), 2);
    assert_eq!(e.get_route_at("THA640", 0).as_deref(), Some("VTBS-RJAA"));
    assert_eq!(e.get_route_at("KLM1023", 0).as_deref(), Some("EHAM-WSSS"));
    assert_eq!(e.routes()[0].1.hits, 1);
}

#[test]
fn unknown_callsign_is_queued_once_and_batched() {
    let mut e = Enrichment::new("http://api", Vec::new());
    assert_eq!(e.get_route_at("AAL100", 1), None);
    assert_eq!(e.get_route_at("AAL100", 2), None);
    assert_eq!(e.get_route_at("UAL200", 3), None);
    let early = e.tick_at(4_999_999_999);
    assert!(early.lookups.is_empty());
    let plan = e.tick_at(5_000_000_000);
    assert_eq!(plan.lookups, vec!["AAL100".to_string(), "UAL200".to_string()]);
    assert!(!plan.persist);
    let again = e.tick_at(11_000_000_000);
    assert!(again.lookups.is_empty());
    let save = e.tick_at(60_000_000_000);
    assert!(save.persist);
}

#[test]
fn batches_hold_at_most_twenty() {
    let mut e = Enrichment::new("", Vec::new());
    for i in 0..25 {
        e.get_route_at(&format!("CS{}", i), 0);
    }
    let plan = e.tick_at(5_000_000_000);
    assert_eq!(plan.lookups.len(), 20);
    assert_eq!(plan.lookups[0], "CS0");
    let rest = e.tick_at(10_000_000_000);
    assert_eq!(rest.lookups.len(), 5);
    assert_eq!(rest.lookups[4], "CS24");
}

#[test]
fn learned_route_is_served() {
    let mut e = Enrichment::new("", Vec::new());
    e.get_route_at("SIA321", 0);
    e.tick_at(5_000_000_000);
    e.record_lookup("SIA321".to_string(), Some(route("WSSS-EGLL")), 5_000_000_000);
    assert_eq!(e.get_route_at("SIA321", 6_000_000_000).as_deref(), Some("WSSS-EGLL"));
    assert_eq!(e.route_count(), 1);
}

#[test]
fn failed_lookup_waits_a_day() {
    let mut e = Enrichment::new("", Vec::new());
    e.get_route_at("XYZ1", 0);
    e.tick_at(5_000_000_000);
    e.record_lookup("XYZ1".to_string(), None, 5_000_000_000);
    e.get_route_at("XYZ1", 6_000_000_000);
    assert!(e.tick_at(20_000_000_000).lookups.is_empty());
    let day = 86_400_000_000_000u128;
    e.get_route_at("XYZ1", 5_000_000_000 + day);
    assert_eq!(e.tick_at(6_000_000_000 + day).lookups, vec!["XYZ1".to_string()]);
}

#[test]
fn airline_by_prefix() {
    let mut e = Enrichment::new("", Vec::new());
    e.airlines.push(("THA".to_string(), "Thai Airways".to_string()));
    e.airlines.push(("KLM".to_string(), "KLM".to_string()));
    e.airlines.push(("THA".to_string(), "Thai Airways International".to_string()));
    assert_eq!(e.get_airline("THA640"), Some("Thai Airways International"));
    assert_eq!(e.get_airline("KL"), None);
    assert_eq!(e.get_airline("DLH400"), None);
}

#[test]
fn airline_prefix_counts_characters() {
    let mut e = Enrichment::new("", Vec::new());
    e.airlines.push(("ÄB".to_string(), "two characters".to_string()));
    e.airlines.push(("ÄBC".to_string(), "three characters".to_string()));
    assert_eq!(e.get_airline("ÄB"), None);
    assert_eq!(e.get_airline("ÄBC1"), Some("three characters"));
    assert_eq!(e.get_airline("abÄ1"), None);
}
