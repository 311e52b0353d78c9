use safe_blob::resp::{
    metadata_key, MDataEntry, MDataKey, MDataValue, UserMetadata, METADATA_KEY_LEN,
};

#[test]
fn metadata_key_is_underscore_metadata() {
    assert_eq!(metadata_key(), b"_metadata".to_vec());
    assert_eq!(metadata_key().len(), METADATA_KEY_LEN);
}

#[test]
fn key_from_routing_keeps_the_bytes() {
    let key = MDataKey::from_routing(vec![1, 2, 3]);
    assert_eq!(key.val, vec![1, 2, 3]);
    assert_eq!(MDataKey::from_routing(Vec::new()).val, Vec::<u8>::new());
}

#[test]
fn value_from_routing_keeps_content_and_version() {
    let value = MDataValue::from_routing(vec![9, 8], 7);
    assert_eq!(value.content, vec![9, 8]);
    assert_eq!(value.entry_version, 7);
}

#[test]
fn entries_are_ordered_by_key_then_value() {
    let low = MDataEntry {
        key: MDataKey::from_routing(vec![1]),
        value: MDataValue::from_routing(vec![5], 2),
    };
    let high = MDataEntry {
        key: MDataKey::from_routing(vec![1]),
        value: MDataValue::from_routing(vec![5], 3),
    };
    assert!(low < high);
    assert_eq!(low.clone(), low);
}

#[test]
fn user_metadata_holds_optional_texts() {
    let metadata = UserMetadata {
        name: None,
        description: Some(String::from("test")),
    };
    assert_eq!(metadata.clone(), metadata);
    assert_eq!(metadata.description.as_deref(), Some("test"));
}
