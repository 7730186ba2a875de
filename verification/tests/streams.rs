use hpr_skygate::compact_ingest::CompactFramer;
use hpr_skygate::reduce::ReduceState;

#[test]
fn compact_frame_without_confidence() {
    let mut f = CompactFramer::new();
    let wire = [8u8, 200, 1, 2, 3, 4, 5, 6, 7];
    let frames = f.feed(&wire);
    assert_eq!(frames.len(), 1);
    assert_eq!(frames[0].signal, 200);
    assert_eq!(frames[0].payload, vec![1, 2, 3, 4, 5, 6, 7]);
    assert_eq!(frames[0].confidence, None);
}

#[test]
fn compact_long_frame_with_confidence_split() {
    let mut f = CompactFramer::new();
    let mut wire = vec![16u8, 9];
    wire.extend(1..=14u8);
    wire.push(99);
    assert!(f.feed(&wire[..5]).is_empty());
    let frames = f.feed(&wire[5..]);
    assert_eq!(frames.len(), 1);
    assert_eq!(frames[0].payload, (1..=14u8).collect::<Vec<_>>());
    assert_eq!(frames[0].confidence, Some(99));
}

#[test]
fn compact_split_feed_matches_whole() {
    fn view(v: Vec<hpr_skygate::compact_ingest::CompactFrame>) -> Vec<(u8, Vec<u8>, Option<u8>)> {
        v.into_iter().map(|f| (f.signal, f.payload, f.confidence)).collect()
    }
    let wire: Vec<u8> = vec![9, 7, 1, 2, 3, 4, 5, 6, 7, 50, 0, 8, 3, 9, 9, 9, 9, 9, 9, 9, 15, 1];
    let tail = [4u8; 14];
    let mut whole = CompactFramer::new();
    let all = view(whole.feed(&wire));
    let after = view(whole.feed(&tail));
    assert_eq!(all.len(), 2);
    assert_eq!(after, vec![(1, vec![4u8; 14], None)]);
    for cut in 0..=wire.len() {
        let mut f = CompactFramer::new();
        let mut parts = view(f.feed(&wire[..cut]));
        parts.extend(view(f.feed(&wire[cut..])));
        assert_eq!(parts, all);
        // the unfinished frame left over is the same too
        assert_eq!(view(f.feed(&tail)), after);
    }
}

#[test]
fn compact_drops_bad_length_bytes() {
    let mut f = CompactFramer::new();
    let frames = f.feed(&[0, 3, 255, 9, 1, 1, 2, 3, 4, 5, 6, 7, 42, 8, 2, 0, 0, 0, 0, 0, 0, 0]);
    assert_eq!(frames.len(), 2);
    assert_eq!(frames[0].confidence, Some(42));
    assert_eq!(frames[1].signal, 2);
}

#[test]
fn reduce_spaces_frames_per_aircraft() {
    let mut r = ReduceState::new(1_000_000_000);
    assert!(r.should_emit(0xABCDEF, 5));
    assert!(!r.should_emit(0xABCDEF, 500_000_000));
    assert!(r.should_emit(0x123456, 500_000_000));
    assert!(r.should_emit(0xABCDEF, 1_000_000_005));
    // a clock reading before the last one counts as no time passed
    assert!(!r.should_emit(0xABCDEF, 3));
}
