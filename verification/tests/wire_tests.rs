use usage_accountant::{encode_message, OutgoingMessage, UsageUnit};

#[test]
fn test_unit_wire_names() {
    assert_eq!(UsageUnit::Milliseconds.wire_name(), "milliseconds");
    assert_eq!(UsageUnit::Bytes.wire_name(), "bytes");
    assert_eq!(UsageUnit::BytesSec.wire_name(), "bytes_sec");
}

#[test]
fn test_encode_exact_bytes() {
    let message = OutgoingMessage {
        timestamp: 1696803300,
        shared_resource_id: "relay".to_owned(),
        app_feature: "transactions".to_owned(),
        usage_unit: UsageUnit::Milliseconds,
        amount: 0,
    };
    let expected = r#"{"amount":0,"app_feature":"transactions","shared_resource_id":"relay","timestamp":1696803300,"usage_unit":"milliseconds"}"#;
    assert_eq!(encode_message(&message), expected.as_bytes());
}

#[test]
fn test_encode_escapes() {
    let message = OutgoingMessage {
        timestamp: 5,
        shared_resource_id: "c\\d".to_owned(),
        app_feature: "a\"b".to_owned(),
        usage_unit: UsageUnit::BytesSec,
        amount: 7,
    };
    let expected = r#"{"amount":7,"app_feature":"a\"b","shared_resource_id":"c\\d","timestamp":5,"usage_unit":"bytes_sec"}"#;
    assert_eq!(encode_message(&message), expected.as_bytes());
}

#[test]
fn test_encode_control_characters() {
    let message = OutgoingMessage {
        timestamp: 0,
        shared_resource_id: "a\nb".to_owned(),
        app_feature: "c\u{1}d".to_owned(),
        usage_unit: UsageUnit::Bytes,
        amount: 1,
    };
    let expected = r#"{"amount":1,"app_feature":"c\u0001d","shared_resource_id":"a\nb","timestamp":0,"usage_unit":"bytes"}"#;
    assert_eq!(encode_message(&message), expected.as_bytes());
}

#[test]
fn test_encode_matches_reference_encoder() {
    // The encoder must agree with an ordinary JSON library on the
    // decoded values, including for non-ASCII contents.
    let message = OutgoingMessage {
        timestamp: 42,
        shared_resource_id: "r\u{e9}sum\u{e9}".to_owned(),
        app_feature: "caf\u{e9}\tbar".to_owned(),
        usage_unit: UsageUnit::Bytes,
        amount: 18446744073709551615,
    };
    let encoded = encode_message(&message);
    let value: serde_json::Value = serde_json::from_slice(&encoded).unwrap();
    assert_eq!(value["timestamp"], 42);
    assert_eq!(value["shared_resource_id"], "r\u{e9}sum\u{e9}");
    assert_eq!(value["app_feature"], "caf\u{e9}\tbar");
    assert_eq!(value["usage_unit"], "bytes");
    assert_eq!(value["amount"], 18446744073709551615u64);
}
