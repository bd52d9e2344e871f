use ulink_zenoh::codec::{decode_attributes, encode_attributes, uuid_to_string, UAttributes, Uuid};

fn full_attributes() -> UAttributes {
    UAttributes {
        id: Some(Uuid {
            msb: 0x1234_5678_9abc_def0,
            lsb: 0x0fed_cba9_8765_4321,
        }),
        type_: 2,
        priority: 4,
        ttl: Some(100),
        token: Some(b"sample-token".to_vec()),
        permission_level: Some(3),
        commstatus: Some(-1),
        reqid: Some(Uuid {
            msb: 0x18000,
            lsb: 0x8000_0000_0000_0000,
        }),
    }
}

#[test]
fn encode_decode_roundtrip_full() {
    let attrs = full_attributes();
    let bytes = encode_attributes(&attrs);
    assert_eq!(decode_attributes(&bytes), Some(attrs));
}

#[test]
fn encode_decode_roundtrip_default() {
    let attrs = UAttributes::default();
    let bytes = encode_attributes(&attrs);
    assert_eq!(bytes, Vec::<u8>::new());
    assert_eq!(decode_attributes(&bytes), Some(attrs));
}

#[test]
fn encode_decode_roundtrip_publish() {
    let attrs = UAttributes {
        id: Some(Uuid { msb: 7, lsb: 9 }),
        type_: 1,
        priority: 4,
        ..Default::default()
    };
    let bytes = encode_attributes(&attrs);
    assert_eq!(decode_attributes(&bytes), Some(attrs));
}

#[test]
fn encode_is_deterministic_and_tagged() {
    let attrs = UAttributes {
        type_: 1,
        ..Default::default()
    };
    let bytes = encode_attributes(&attrs);
    // One field: tag for field 2 (varint wire type), value 1.
    assert_eq!(bytes, vec![16u8, 1u8]);
    let again = encode_attributes(&attrs);
    assert_eq!(bytes, again);
}

#[test]
fn negative_int32_fields_roundtrip() {
    let attrs = UAttributes {
        ttl: Some(-7),
        commstatus: Some(i32::MIN),
        ..Default::default()
    };
    let bytes = encode_attributes(&attrs);
    assert_eq!(decode_attributes(&bytes), Some(attrs));
}

#[test]
fn decode_rejects_malformed_bytes() {
    // A lone continuation byte is not a parseable record.
    assert_eq!(decode_attributes(&[0xFFu8]), None);
    // A field tag with its varint cut off.
    assert_eq!(decode_attributes(&[16u8]), None);
    // A length-delimited field promising more bytes than follow.
    assert_eq!(decode_attributes(&[10u8, 5u8, 8u8]), None);
}

#[test]
fn uuid_to_string_is_decimal_pair() {
    let id = Uuid {
        msb: 0x18000,
        lsb: 0x8000_0000_0000_0000,
    };
    assert_eq!(uuid_to_string(&id), "98304:9223372036854775808");
    let zero = Uuid { msb: 0, lsb: 0 };
    assert_eq!(uuid_to_string(&zero), "0:0");
}

#[test]
fn uuid_strings_distinguish_uuids() {
    let a = Uuid { msb: 1, lsb: 23 };
    let b = Uuid { msb: 12, lsb: 3 };
    assert_ne!(uuid_to_string(&a), uuid_to_string(&b));
}
