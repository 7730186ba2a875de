use hpr_skygate::ais::decode::{
    bits_signed, bits_text, bits_uint, decode_ais, payload_to_bits, validate_position, AisFrame,
};

#[test]
fn test_payload_to_bits() {
    let bits = payload_to_bits("1");
    assert_eq!(bits.len(), 6);
    // '1' = 49 - 48 = 1 = 000001
    assert_eq!(&bits[..], &[0, 0, 0, 0, 0, 1]);
}

#[test]
fn test_bits_uint() {
    let bits = vec![1, 0, 1, 0]; // = 10
    assert_eq!(bits_uint(&bits, 0, 4), 10);
}

#[test]
fn test_bits_signed_negative() {
    // 11111111 = -1 in 8-bit signed
    let bits = vec![1, 1, 1, 1, 1, 1, 1, 1];
    assert_eq!(bits_signed(&bits, 0, 8), -1);
}

#[test]
fn test_bits_text() {
    // 'A' in 6-bit AIS = 1 (0b000001), maps to 'A' (1 + 64 = 65)
    let bits = vec![0, 0, 0, 0, 0, 1];
    assert_eq!(bits_text(&bits, 0, 6), "A");
}

#[test]
fn test_type1_position() {
    // !AIVDM,1,1,,B,177KQJ5000G?tO`K>RA1wUbN0TKH,0*5C
    let payload = "177KQJ5000G?tO`K>RA1wUbN0TKH";
    let frame = decode_ais(payload);
    assert!(frame.is_some());
    if let Some(AisFrame::Position { mmsi, data, .. }) = frame {
        assert_eq!(mmsi, 477553000);
        assert_eq!(data[0], 0x01);
    }
}

#[test]
fn test_type5_static() {
    // Full type 5: 71 chars = 426 bits (424 needed)
    let payload = "55?MbV02>H97ac<H4eEK6WT4r0Th4000000000000000000000000000000000000000000";
    let bits = payload_to_bits(payload);
    assert!(bits.len() >= 424);
    let frame = decode_ais(payload);
    assert!(frame.is_some());
    if let Some(AisFrame::Static { mmsi, .. }) = frame {
        assert_eq!(mmsi, 351759000);
    }
}

#[test]
fn test_reject_zero_position() {
    // Craft a type 1 with lon=0 lat=0 — should reject
    assert!(!validate_position(0, 0, 123456789));
}

#[test]
fn test_reject_not_available() {
    assert!(!validate_position(0x6791AC0, 0, 123456789));
    assert!(!validate_position(0, 0x3412140, 123456789));
}

#[test]
fn test_reject_zero_mmsi() {
    assert!(!validate_position(1000, 1000, 0));
}

#[test]
fn bits_uint_reads_msb_first_at_offset() {
    let bits = vec![0, 0, 1, 1, 0, 1];
    assert_eq!(bits_uint(&bits, 2, 4), 0b1101);
    assert_eq!(bits_uint(&bits, 0, 0), 0);
}

#[test]
fn bits_signed_positive_and_minimum() {
    let bits = vec![0, 1, 1, 1];
    assert_eq!(bits_signed(&bits, 0, 4), 7);
    let bits = vec![1, 0, 0, 0];
    assert_eq!(bits_signed(&bits, 0, 4), -8);
}

#[test]
fn bits_text_trims_padding_and_spaces() {
    // "AB" then '@' padding (0) then space (32)
    let mut bits = Vec::new();
    for code in [1u8, 2, 32, 0, 0] {
        for k in (0..6).rev() {
            bits.push((code >> k) & 1);
        }
    }
    assert_eq!(bits_text(&bits, 0, 30), "AB");
}

#[test]
fn payload_to_bits_high_armor_range() {
    // 'w' = 119: 119 - 48 = 71 > 40, minus 8 = 63 = 111111
    assert_eq!(payload_to_bits("w"), vec![1, 1, 1, 1, 1, 1]);
    // '`' = 96: 96 - 48 = 48 > 40, minus 8 = 40 = 101000
    assert_eq!(payload_to_bits("`"), vec![1, 0, 1, 0, 0, 0]);
}

#[test]
fn type1_position_frame_layout() {
    let frame = decode_ais("177KQJ5000G?tO`K>RA1wUbN0TKH").unwrap();
    match frame {
        AisFrame::Position { data, mmsi } => {
            assert_eq!(mmsi, 477553000);
            assert_eq!(&data[1..5], &477553000u32.to_le_bytes());
            // true heading 181 degrees
            assert_eq!(u16::from_le_bytes([data[17], data[18]]), 181);
        }
        _ => panic!("expected a position frame"),
    }
}

#[test]
fn decode_ais_rejects_short_and_unknown() {
    assert!(decode_ais("1").is_none());
    // type 4 (base station) is not decoded
    assert!(decode_ais("402R3b1uvF`0h0U4Vf@p1:700<0@").is_none());
}

#[test]
fn validate_position_accepts_ordinary() {
    // 10 degrees east, 50 degrees north in 1/10000 minute
    assert!(validate_position(6_000_000, 30_000_000, 123456789));
    // beyond 180 degrees east
    assert!(!validate_position(108_000_001, 0, 123456789));
}

use hpr_skygate::ais::decode::FragmentAssembler;

#[test]
fn test_fragment_assembler_single() {
    let mut assembler = FragmentAssembler::new();
    let result = assembler.process("!AIVDM,1,1,,A,15N4cJ`005Ip000,0*72");
    assert_eq!(result, Some("15N4cJ`005Ip000".to_string()));
}

#[test]
fn test_fragment_assembler_multi() {
    let mut assembler = FragmentAssembler::new();
    let r1 = assembler.process("!AIVDM,2,1,3,B,55?MbV02>H97ac<H4eEK6WT4r0Th40,0*2A");
    assert!(r1.is_none());
    let r2 = assembler.process("!AIVDM,2,2,3,B,00000000000P0`D247i0Ep4l`888888888880,2*2C");
    assert!(r2.is_some());
}

#[test]
fn fragments_join_in_part_order() {
    let mut assembler = FragmentAssembler::new();
    assert!(assembler.process_at("!AIVDM,3,2,7,A,BBB,0*00", 0).is_none());
    assert!(assembler.process_at("!AIVDM,3,1,7,A,AAA,0*00", 1).is_none());
    // another message on the other channel does not mix in
    assert!(assembler.process_at("!AIVDM,2,1,7,B,XXX,0*00", 2).is_none());
    assert_eq!(assembler.process_at("!AIVDM,3,3,7,A,CCC,0*00", 3), Some("AAABBBCCC".to_string()));
    assert_eq!(assembler.process_at("!AIVDM,2,2,7,B,YYY,0*00", 4), Some("XXXYYY".to_string()));
}

#[test]
fn fragments_expire_and_reject_bad_fields() {
    let mut assembler = FragmentAssembler::new();
    assert!(assembler.process_at("!AIVDM,2,1,1,A,AAA,0*00", 0).is_none());
    // 30 s later the first part is gone
    assert!(assembler.process_at("!AIVDM,2,2,1,A,BBB,0*00", 30_000_000_000).is_none());
    assert!(assembler.process_at("!AIVDM,x,1,1,A,AAA,0*00", 0).is_none());
    assert!(assembler.process_at("!AIVDM,0,1,1,A,AAA,0*00", 0).is_none());
    assert!(assembler.process_at("!AIVDM,1,1,,A", 0).is_none());
    // surrounding white space is trimmed
    assert_eq!(assembler.process_at("  !AIVDM,+1,1,,A,PAY,0*00\r\n", 0), Some("PAY".to_string()));
}

#[test]
fn fragments_part_beyond_total_is_ignored() {
    let mut assembler = FragmentAssembler::new();
    assert_eq!(assembler.process("!AIVDM,2,3,1,A,abc,0*00"), None);
    assert_eq!(assembler.process_at("!AIVDM,2,3,1,A,abc,0*00", 0), None);
    // the message under that key is untouched: its two parts still complete it
    assert_eq!(assembler.process_at("!AIVDM,2,1,1,A,AB,0*00", 0), None);
    assert_eq!(assembler.process_at("!AIVDM,2,3,1,A,XX,0*00", 1), None);
    assert_eq!(assembler.process_at("!AIVDM,2,2,1,A,CD,0*00", 2), Some("ABCD".to_string()));
    // a single-part sentence gives its payload whatever its part number
    assert_eq!(assembler.process_at("!AIVDM,1,3,1,A,AAA,0*00", 3), Some("AAA".to_string()));
}

#[test]
fn fragments_three_parts_any_order() {
    let mut assembler = FragmentAssembler::new();
    assert_eq!(assembler.process_at("!AIVDM,3,3,7,B,EF,0*00", 10), None);
    assert_eq!(assembler.process_at("!AIVDM,3,1,7,B,AB,0*00", 20), None);
    assert_eq!(assembler.process_at("!AIVDM,3,2,7,B,CD,0*00", 30), Some("ABCDEF".to_string()));
    // nothing is left under that key: a new first part starts afresh
    assert_eq!(assembler.process_at("!AIVDM,3,2,7,B,XX,0*00", 40), None);
    assert_eq!(assembler.process_at("!AIVDM,3,1,7,B,YY,0*00", 50), None);
    assert_eq!(assembler.process_at("!AIVDM,3,3,7,B,ZZ,0*00", 60), Some("YYXXZZ".to_string()));
}
