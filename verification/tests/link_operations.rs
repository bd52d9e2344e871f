use ulink_zenoh::attachment::Attachment;
use ulink_zenoh::codec::{UAttributes, Uuid};
use ulink_zenoh::link::{
    parse_reply, prepare_invoke, process_sample, GetAction, SampleValue, SendAction, ULinkZenoh,
};
use ulink_zenoh::payload::{Data, UPayload};
use ulink_zenoh::status::{RpcMapperError, UCode};
use ulink_zenoh::uri::{to_zenoh_key_string, UEntity, UResource, UUri};

fn door_uri() -> UUri {
    UUri {
        entity: Some(UEntity {
            name: "body.access".to_string(),
            version_major: Some(1),
            ..Default::default()
        }),
        resource: Some(UResource {
            name: "door".to_string(),
            instance: Some("front_left".to_string()),
            message: Some("Door".to_string()),
            ..Default::default()
        }),
        ..Default::default()
    }
}

fn method_uri() -> UUri {
    UUri {
        entity: Some(UEntity {
            name: "test_rpc.app".to_string(),
            version_major: Some(1),
            ..Default::default()
        }),
        resource: Some(UResource {
            name: "rpc".to_string(),
            instance: Some("SimpleTest".to_string()),
            message: None,
            ..Default::default()
        }),
        ..Default::default()
    }
}

fn value_payload(bytes: &[u8], format: i32) -> UPayload {
    UPayload {
        length: None,
        format,
        data: Some(Data::Value(bytes.to_vec())),
    }
}

#[test]
fn register_and_unregister_subscriber() {
    let mut link: ULinkZenoh<(), (), ()> = ULinkZenoh::new();
    let topic = door_uri();
    let key = to_zenoh_key_string(&topic).unwrap();
    let token = link.register_subscriber(key.as_bytes(), ()).unwrap();
    assert!(token.starts_with("body.access/1/door.front_left\\3Door_"));
    assert!(link.unregister_listener(&topic, &token).is_ok());
    let err = link.unregister_listener(&topic, &token).unwrap_err();
    assert_eq!(err.code, UCode::InvalidArgument);
    assert_eq!(err.message, "Listener doesn't exist");
}

#[test]
fn register_and_unregister_rpc_listener() {
    let mut link: ULinkZenoh<(), u32, ()> = ULinkZenoh::new();
    let method = method_uri();
    let key = to_zenoh_key_string(&method).unwrap();
    let token = link.register_queryable(key.as_bytes(), 7).unwrap();
    assert!(token.starts_with("test_rpc.app/1/rpc.SimpleTest_"));
    assert_eq!(link.unregister_rpc_listener(&method, &token), Ok(7));
    let err = link.unregister_rpc_listener(&method, &token).unwrap_err();
    assert_eq!(err.code, UCode::InvalidArgument);
    assert_eq!(err.message, "Listener doesn't exist");
}

#[test]
fn tokens_are_unique_between_registrations() {
    let mut link: ULinkZenoh<(), (), ()> = ULinkZenoh::new();
    let topic = door_uri();
    let key = to_zenoh_key_string(&topic).unwrap();
    let a = link.register_subscriber(key.as_bytes(), ()).unwrap();
    let b = link.register_subscriber(key.as_bytes(), ()).unwrap();
    assert_ne!(a, b);
    assert!(link.unregister_listener(&topic, &a).is_ok());
    assert!(link.unregister_listener(&topic, &b).is_ok());
}

#[test]
fn unregister_rejects_invalid_topic() {
    let mut link: ULinkZenoh<(), (), ()> = ULinkZenoh::new();
    let err = link
        .unregister_listener(&UUri::default(), "sometoken")
        .unwrap_err();
    assert_eq!(err.code, UCode::InvalidArgument);
    assert_eq!(err.message, "Invalid topic");
}

#[test]
fn publish_and_deliver() {
    let mut link: ULinkZenoh<(), (), ()> = ULinkZenoh::new();
    let topic = door_uri();
    let attrs = UAttributes {
        id: Some(Uuid { msb: 5, lsb: 6 }),
        type_: 1,
        priority: 4,
        ..Default::default()
    };
    let action = link
        .prepare_send(&topic, value_payload(b"Hello World!", 4), &attrs)
        .unwrap();
    match action {
        SendAction::Put {
            key,
            payload,
            encoding_suffix,
            attachment,
        } => {
            assert_eq!(key, "body.access/1/door.front_left\\3Door");
            assert_eq!(encoding_suffix, "4");
            let msg =
                process_sample(&topic, Some(&attachment), encoding_suffix.as_bytes(), payload)
                    .unwrap();
            assert_eq!(msg.source, Some(topic.clone()));
            assert_eq!(msg.attributes, Some(attrs.clone()));
            let delivered = msg.payload.unwrap();
            assert_eq!(delivered.format, 4);
            assert_eq!(delivered.length, Some(0));
            assert_eq!(delivered.data, Some(Data::Value(b"Hello World!".to_vec())));
        }
        _ => panic!("a publish must become a put"),
    }
}

#[test]
fn send_rejects_wrong_message_type() {
    let mut link: ULinkZenoh<(), (), ()> = ULinkZenoh::new();
    let topic = door_uri();
    let attrs = UAttributes {
        type_: 2,
        ..Default::default()
    };
    let err = link
        .prepare_send(&topic, value_payload(b"x", 0), &attrs)
        .unwrap_err();
    assert_eq!(err.code, UCode::InvalidArgument);
    assert_eq!(err.message, "Wrong Message type in UAttributes");
}

#[test]
fn send_rejects_missing_value() {
    let mut link: ULinkZenoh<(), (), ()> = ULinkZenoh::new();
    let topic = door_uri();
    let attrs = UAttributes {
        type_: 1,
        ..Default::default()
    };
    let no_data = UPayload {
        length: None,
        format: 0,
        data: None,
    };
    let err = link.prepare_send(&topic, no_data, &attrs).unwrap_err();
    assert_eq!(err.message, "Invalid data");
    let reference = UPayload {
        length: None,
        format: 0,
        data: Some(Data::Reference(12)),
    };
    let err = link.prepare_send(&topic, reference, &attrs).unwrap_err();
    assert_eq!(err.message, "Invalid data");
}

#[test]
fn send_rejects_invalid_topic() {
    let mut link: ULinkZenoh<(), (), ()> = ULinkZenoh::new();
    let attrs = UAttributes {
        type_: 1,
        ..Default::default()
    };
    let err = link
        .prepare_send(&UUri::default(), value_payload(b"x", 0), &attrs)
        .unwrap_err();
    assert_eq!(err.code, UCode::InvalidArgument);
    assert_eq!(err.message, "Invalid topic");
}

#[test]
fn response_without_pending_query_fails() {
    let mut link: ULinkZenoh<(), (), u32> = ULinkZenoh::new();
    let topic = method_uri();
    let attrs = UAttributes {
        type_: 3,
        reqid: Some(Uuid { msb: 1, lsb: 2 }),
        ..Default::default()
    };
    let err = link
        .prepare_send(&topic, value_payload(b"x", 0), &attrs)
        .unwrap_err();
    assert_eq!(err.code, UCode::InvalidArgument);
    assert_eq!(err.message, "No matching request");
}

#[test]
fn rpc_request_and_reply_roundtrip() {
    let method = method_uri();
    let reqid = Uuid {
        msb: 0x18000,
        lsb: 0x8000_0000_0000_0000,
    };
    // Client side: build the request.
    let request_attrs = UAttributes {
        id: Some(Uuid { msb: 9, lsb: 9 }),
        type_: 2,
        priority: 4,
        ttl: Some(100),
        reqid: Some(reqid),
        ..Default::default()
    };
    let get: GetAction = prepare_invoke(
        &method,
        value_payload(b"This is the client data", 4),
        &request_attrs,
    )
    .unwrap();
    assert_eq!(get.key, "test_rpc.app/1/rpc.SimpleTest");
    assert_eq!(get.timeout_ms, 1000);

    // Server side: the queryable callback sees the query.
    let mut server: ULinkZenoh<(), (), u32> = ULinkZenoh::new();
    let query_handle: u32 = 42;
    let msg = server
        .process_query(
            &method,
            Some(&get.attachment),
            Some(SampleValue {
                encoding_suffix: get.encoding_suffix.as_bytes().to_vec(),
                payload: get.payload.clone(),
            }),
            query_handle,
        )
        .unwrap();
    assert_eq!(msg.source, Some(method.clone()));
    assert_eq!(msg.attributes, Some(request_attrs.clone()));
    let seen = msg.payload.unwrap();
    assert_eq!(seen.data, Some(Data::Value(b"This is the client data".to_vec())));
    assert_eq!(seen.format, 4);

    // Server side: the application answers through send.
    let response_attrs = UAttributes {
        type_: 3,
        reqid: Some(reqid),
        ..Default::default()
    };
    let action = server
        .prepare_send(
            &method,
            value_payload(b"This is the server data", 4),
            &response_attrs,
        )
        .unwrap();
    match action {
        SendAction::Reply {
            query,
            key,
            payload,
            encoding_suffix,
        } => {
            assert_eq!(query, query_handle);
            assert_eq!(key, "test_rpc.app/1/rpc.SimpleTest");
            // Client side: the reply arrives.
            let result = parse_reply(Some(SampleValue {
                encoding_suffix: encoding_suffix.as_bytes().to_vec(),
                payload,
            }))
            .unwrap();
            assert_eq!(result.data, Some(Data::Value(b"This is the server data".to_vec())));
            assert_eq!(result.format, 4);
        }
        _ => panic!("a response must become a reply"),
    }

    // The pending query was consumed: a second response finds nothing.
    let err = server
        .prepare_send(
            &method,
            value_payload(b"again", 4),
            &response_attrs,
        )
        .unwrap_err();
    assert_eq!(err.message, "No matching request");
}

#[test]
fn query_without_value_gets_empty_payload() {
    let mut server: ULinkZenoh<(), (), u32> = ULinkZenoh::new();
    let method = method_uri();
    let attrs = UAttributes {
        type_: 2,
        reqid: Some(Uuid { msb: 3, lsb: 4 }),
        ..Default::default()
    };
    let attachment = Attachment::for_uattributes(ulink_zenoh::codec::encode_attributes(&attrs));
    let msg = server
        .process_query(&method, Some(&attachment), None, 1)
        .unwrap();
    let p = msg.payload.unwrap();
    assert_eq!(p.format, 0);
    assert_eq!(p.data, None);
    assert_eq!(p.length, Some(0));
}

#[test]
fn query_without_reqid_is_rejected() {
    let mut server: ULinkZenoh<(), (), u32> = ULinkZenoh::new();
    let method = method_uri();
    let attrs = UAttributes {
        type_: 2,
        ..Default::default()
    };
    let attachment = Attachment::for_uattributes(ulink_zenoh::codec::encode_attributes(&attrs));
    let err = server
        .process_query(&method, Some(&attachment), None, 1)
        .unwrap_err();
    assert_eq!(err.code, UCode::Internal);
    assert_eq!(err.message, "The request is without reqid in UAttributes");
}

#[test]
fn malformed_inbound_sample_errors_and_recovers() {
    let topic = door_uri();
    // No attachment at all.
    let err = process_sample(&topic, None, b"4", b"data".to_vec()).unwrap_err();
    assert_eq!(err.code, UCode::Internal);
    assert_eq!(err.message, "Unable to get attachment");
    // Attachment without the expected entry.
    let empty = Attachment::new();
    let err = process_sample(&topic, Some(&empty), b"4", b"data".to_vec()).unwrap_err();
    assert_eq!(err.message, "Unable to get uattributes");
    // Attachment whose entry does not decode.
    let bad = Attachment::for_uattributes(vec![0xFF]);
    let err = process_sample(&topic, Some(&bad), b"4", b"data".to_vec()).unwrap_err();
    assert_eq!(err.message, "Unable to decode attribute");
    // A suffix that is not a number.
    let attrs = UAttributes {
        type_: 1,
        ..Default::default()
    };
    let good = Attachment::for_uattributes(ulink_zenoh::codec::encode_attributes(&attrs));
    let err = process_sample(&topic, Some(&good), b"protobuf", b"data".to_vec()).unwrap_err();
    assert_eq!(err.message, "Unable to get payload encoding");
    // A later good sample still delivers.
    let msg = process_sample(&topic, Some(&good), b"0", b"data".to_vec()).unwrap();
    assert_eq!(msg.payload.unwrap().data, Some(Data::Value(b"data".to_vec())));
}

#[test]
fn invoke_method_rejects_bad_inputs() {
    let attrs = UAttributes {
        type_: 2,
        reqid: Some(Uuid { msb: 1, lsb: 1 }),
        ..Default::default()
    };
    match prepare_invoke(&UUri::default(), value_payload(b"x", 0), &attrs) {
        Err(RpcMapperError::UnexpectedError(m)) => assert_eq!(m, "Wrong UUri"),
        _ => panic!("an invalid URI must be refused"),
    }
    let no_data = UPayload {
        length: None,
        format: 0,
        data: None,
    };
    match prepare_invoke(&method_uri(), no_data, &attrs) {
        Err(RpcMapperError::InvalidPayload(m)) => assert_eq!(m, "Wrong UPayload"),
        _ => panic!("a payload without a value must be refused"),
    }
}

#[test]
fn reply_parsing_errors() {
    match parse_reply(None) {
        Err(RpcMapperError::UnexpectedError(m)) => {
            assert_eq!(m, "Error while parsing Zenoh reply")
        }
        _ => panic!("a failed sample must be an error"),
    }
    match parse_reply(Some(SampleValue {
        encoding_suffix: b"x".to_vec(),
        payload: b"d".to_vec(),
    })) {
        Err(RpcMapperError::UnexpectedError(m)) => {
            assert_eq!(m, "Error while parsing Zenoh encoding")
        }
        _ => panic!("a bad suffix must be an error"),
    }
}

#[test]
fn authenticate_is_unimplemented() {
    let link: ULinkZenoh<(), (), ()> = ULinkZenoh::new();
    let entity = UEntity {
        name: "body.access".to_string(),
        version_major: Some(1),
        ..Default::default()
    };
    let err = link.authenticate(&entity).unwrap_err();
    assert_eq!(err.code, UCode::Unimplemented);
    assert_eq!(err.message, "Not implemented");
}

#[test]
fn negative_format_survives_delivery() {
    let mut link: ULinkZenoh<(), (), ()> = ULinkZenoh::new();
    let topic = door_uri();
    let attrs = UAttributes {
        type_: 1,
        ..Default::default()
    };
    let action = link
        .prepare_send(&topic, value_payload(b"bytes", -5), &attrs)
        .unwrap();
    match action {
        SendAction::Put {
            payload,
            encoding_suffix,
            attachment,
            ..
        } => {
            assert_eq!(encoding_suffix, "-5");
            let msg =
                process_sample(&topic, Some(&attachment), encoding_suffix.as_bytes(), payload)
                    .unwrap();
            assert_eq!(msg.payload.unwrap().format, -5);
        }
        _ => panic!("a publish must become a put"),
    }
}

#[test]
fn prepare_register_validates_and_maps() {
    let key = ulink_zenoh::link::prepare_register(&door_uri()).unwrap();
    assert_eq!(key, "body.access/1/door.front_left\\3Door");
    let err = ulink_zenoh::link::prepare_register(&UUri::default()).unwrap_err();
    assert_eq!(err.code, UCode::InvalidArgument);
    assert_eq!(err.message, "Invalid topic");
}

#[test]
fn invoke_targets_best_matching() {
    let attrs = UAttributes {
        type_: 2,
        reqid: Some(Uuid { msb: 1, lsb: 1 }),
        ..Default::default()
    };
    let get = prepare_invoke(&method_uri(), value_payload(b"x", 0), &attrs).unwrap();
    assert_eq!(get.target, ulink_zenoh::link::GetTarget::BestMatching);
    assert_eq!(get.attachment.entries.len(), 1);
}
