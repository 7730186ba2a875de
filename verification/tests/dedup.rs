use hpr_skygate::ais::dedup::DedupCache;

#[test]
fn duplicate_within_ttl() {
    let mut c = DedupCache::new(30_000_000_000);
    let s = "!AIVDM,1,1,,A,15N4cJ`005Ip000,0*72";
    assert!(!c.is_duplicate_at(s, 1_000));
    assert!(c.is_duplicate_at(s, 2_000_000_000));
    assert!(!c.is_duplicate_at("!AIVDM,other", 2_000_000_000));
    // 30 s after it was recorded the entry has expired, and it is recorded again
    assert!(!c.is_duplicate_at(s, 30_000_001_000));
    assert!(c.is_duplicate_at(s, 30_000_001_001));
}

#[test]
fn ttl_is_the_given_nanoseconds() {
    let mut c = DedupCache::new(1_000);
    assert!(!c.is_duplicate_at("x", 5));
    assert!(c.is_duplicate_at("x", 1_004));
    assert!(!c.is_duplicate_at("x", 1_005));
}

#[test]
fn duplicate_with_clock() {
    let mut c = DedupCache::new(30_000_000_000);
    assert!(!c.is_duplicate("!AIVDM,1,1,,B,x,0*00"));
    assert!(c.is_duplicate("!AIVDM,1,1,,B,x,0*00"));
}

#[test]
fn purge_after_a_minute_keeps_fresh() {
    let mut c = DedupCache::new(30_000_000_000);
    assert!(!c.is_duplicate_at("a", 0));
    assert!(!c.is_duplicate_at("b", 50_000_000_000));
    // at 61 s the purge drops "a" (61 s old) and keeps "b" (11 s old)
    assert!(c.is_duplicate_at("b", 61_000_000_000));
    assert!(!c.is_duplicate_at("a", 61_000_000_001));
}

use hpr_skygate::ais::AisIngest;

#[test]
fn parse_sources_entries() {
    let v = AisIngest::parse_sources("north=10.0.0.1:5631,bad,south=ais.example.org:10110");
    assert_eq!(
        v,
        vec![
            ("north".to_string(), "10.0.0.1".to_string(), 5631),
            ("south".to_string(), "ais.example.org".to_string(), 10110),
        ]
    );
}

#[test]
fn parse_sources_splits_at_last_colon_and_checks_port() {
    let v = AisIngest::parse_sources("v6=::1:2000,big=h:70000,eq=a=b:1,noport=h:");
    assert_eq!(
        v,
        vec![
            ("v6".to_string(), "::1".to_string(), 2000),
            ("eq".to_string(), "a=b".to_string(), 1),
        ]
    );
    assert!(AisIngest::parse_sources("").is_empty());
}

#[test]
fn ais_ingest_starts_empty() {
    let a = AisIngest::new();
    assert!(a.sources.is_empty());
}
