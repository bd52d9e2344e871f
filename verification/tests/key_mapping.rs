use ulink_zenoh::uri::{to_zenoh_key_string, UAuthority, UEntity, UResource, UUri};

fn door_uri() -> UUri {
    UUri {
        entity: Some(UEntity {
            name: "body.access".to_string(),
            version_major: Some(1),
            ..Default::default()
        }),
        resource: Some(UResource {
            name: "door".to_string(),
            instance: Some("front_left".to_string()),
            message: Some("Door".to_string()),
            ..Default::default()
        }),
        ..Default::default()
    }
}

#[test]
fn test_to_zenoh_key_string() {
    let uuri = door_uri();
    assert_eq!(
        to_zenoh_key_string(&uuri).unwrap(),
        String::from("body.access/1/door.front_left\\3Door")
    );
}

#[test]
fn rpc_method_key() {
    let uuri = UUri {
        entity: Some(UEntity {
            name: "test_rpc.app".to_string(),
            version_major: Some(1),
            ..Default::default()
        }),
        resource: Some(UResource {
            name: "rpc".to_string(),
            instance: Some("SimpleTest".to_string()),
            message: None,
            ..Default::default()
        }),
        ..Default::default()
    };
    assert_eq!(
        to_zenoh_key_string(&uuri).unwrap(),
        String::from("test_rpc.app/1/rpc.SimpleTest")
    );
}

#[test]
fn reserved_characters_are_escaped() {
    let uuri = UUri {
        entity: Some(UEntity {
            name: "a*b$c".to_string(),
            version_major: Some(2),
            ..Default::default()
        }),
        resource: Some(UResource {
            name: "q?r".to_string(),
            instance: None,
            message: Some("M#N".to_string()),
            ..Default::default()
        }),
        ..Default::default()
    };
    let key = to_zenoh_key_string(&uuri).unwrap();
    assert_eq!(key, "a\\8b\\4c/2/q\\0r\\3M\\3N");
    assert!(!key.contains('*'));
    assert!(!key.contains('$'));
    assert!(!key.contains('?'));
    assert!(!key.contains('#'));
    assert!(!key.contains("//"));
}

#[test]
fn remote_authority_key_has_no_double_slash() {
    let uuri = UUri {
        authority: Some(UAuthority {
            name: Some("vcu.vin".to_string()),
        }),
        entity: Some(UEntity {
            name: "body.access".to_string(),
            version_major: Some(1),
            ..Default::default()
        }),
        resource: Some(UResource {
            name: "door".to_string(),
            instance: None,
            message: None,
            ..Default::default()
        }),
        ..Default::default()
    };
    let key = to_zenoh_key_string(&uuri).unwrap();
    assert_eq!(key, "/vcu.vin/body.access/1/door");
    assert!(!key.contains("//"));
}

#[test]
fn missing_version_folds_double_slash() {
    let uuri = UUri {
        entity: Some(UEntity {
            name: "body.access".to_string(),
            version_major: None,
            ..Default::default()
        }),
        resource: Some(UResource {
            name: "door".to_string(),
            instance: None,
            message: None,
            ..Default::default()
        }),
        ..Default::default()
    };
    let key = to_zenoh_key_string(&uuri).unwrap();
    assert_eq!(key, "body.access\\/door");
    assert!(!key.contains("//"));
}

#[test]
fn invalid_uri_is_rejected() {
    let empty = UUri::default();
    let err = to_zenoh_key_string(&empty).unwrap_err();
    assert_eq!(err.message, "Unable to transform to Zenoh key");
    let no_name = UUri {
        entity: Some(UEntity {
            name: String::new(),
            version_major: Some(1),
            ..Default::default()
        }),
        ..Default::default()
    };
    assert!(to_zenoh_key_string(&no_name).is_err());
    let slash_in_name = UUri {
        entity: Some(UEntity {
            name: "a/b".to_string(),
            version_major: Some(1),
            ..Default::default()
        }),
        ..Default::default()
    };
    assert!(to_zenoh_key_string(&slash_in_name).is_err());
}
