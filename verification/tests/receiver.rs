use hpr_skygate::receiver::{is_valid_uuid, uuid_to_receiver_id};

#[test]
fn test_uuid_to_receiver_id() {
    let id = uuid_to_receiver_id("a1b2c3d4-e5f6-7890-abcd-ef1234567890");
    assert_eq!(id, 0xa1b2c3d4e5f67890);
}

#[test]
fn test_valid_uuid() {
    assert!(is_valid_uuid("a1b2c3d4-e5f6-7890-abcd-ef1234567890"));
    assert!(!is_valid_uuid("not-a-uuid"));
    assert!(!is_valid_uuid("a1b2c3d4e5f67890abcdef1234567890xxxx"));
}

#[test]
fn receiver_id_short_or_bad_is_zero() {
    assert_eq!(uuid_to_receiver_id("a1b2-c3d4"), 0);
    assert_eq!(uuid_to_receiver_id("zzzzzzzz-zzzz-zzzz-zzzz-zzzzzzzzzzzz"), 0);
    assert_eq!(uuid_to_receiver_id("0000000000000001"), 1);
}

#[test]
fn valid_uuid_uppercase_and_dash_placement() {
    assert!(is_valid_uuid("A1B2C3D4-E5F6-7890-ABCD-EF1234567890"));
    // 36 characters but only 31 hex digits once dashes are gone
    assert!(!is_valid_uuid("a1b2c3d4-e5f6-7890-abcd-ef123456789-"));
}
