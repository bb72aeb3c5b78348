use usage_accountant::{DummyProducer, UsageAccountant, UsageUnit};

#[test]
fn test_empty_batch() {
    let mut accountant = UsageAccountant::new(DummyProducer::default(), None);

    let res = accountant.flush();
    assert!(res.is_ok());
    assert_eq!(accountant.producer.messages.len(), 0);
}

#[test]
fn test_three_messages() {
    let mut accountant = UsageAccountant::new(DummyProducer::default(), None);

    let res1 = accountant.record("resource_1", "transactions", 100, UsageUnit::Bytes);
    assert!(res1.is_ok());
    let res2 = accountant.record("resource_1", "spans", 200, UsageUnit::Bytes);
    assert!(res2.is_ok());

    let res = accountant.flush();
    assert!(res.is_ok());

    let messages = accountant.producer.messages.clone();
    assert_eq!(messages.len(), 2);

    let m1: serde_json::Value = serde_json::from_slice(&messages[0]).unwrap();
    assert_eq!(m1["shared_resource_id"], "resource_1");
    assert_eq!(m1["usage_unit"], "bytes");

    let m2: serde_json::Value = serde_json::from_slice(&messages[1]).unwrap();
    assert_eq!(m2["shared_resource_id"], "resource_1");
    assert_eq!(m2["usage_unit"], "bytes");

    // The messages will not necessarily be in order.
    assert_ne!(m1["app_feature"], m2["app_feature"]);
    if m1["app_feature"] == "transactions" {
        assert_eq!(m2["app_feature"], "spans")
    } else {
        assert_eq!(m2["app_feature"], "transactions");
        assert_eq!(m1["app_feature"], "spans");
    }
    assert_ne!(m1["amount"], m2["amount"]);

    let res = accountant.flush();
    assert!(res.is_ok());
    // Messages are still the same we had before the previous step.
    assert_eq!(accountant.producer.messages.len(), 2);
}

#[test]
fn test_close_flushes() {
    let mut accountant = UsageAccountant::new(DummyProducer::default(), Some(60));
    let res = accountant.record_at(120, "r1", "f1", 7, UsageUnit::Bytes);
    assert!(res.is_ok());
    assert_eq!(accountant.producer.messages.len(), 0);
    accountant.close();
    assert_eq!(accountant.producer.messages.len(), 1);
    // A second close sends nothing more.
    accountant.close();
    assert_eq!(accountant.producer.messages.len(), 1);
}

#[test]
fn test_record_at_triggers_flush() {
    let mut accountant = UsageAccountant::new(DummyProducer::default(), Some(60));
    let res1 = accountant.record_at(100, "r1", "f1", 1, UsageUnit::Bytes);
    assert!(res1.is_ok());
    assert_eq!(accountant.producer.messages.len(), 0);
    // 100 quantizes to 60; 120 is one full width past it, so this
    // report triggers a flush that carries both buckets.
    let res2 = accountant.record_at(121, "r2", "f2", 2, UsageUnit::Bytes);
    assert!(res2.is_ok());
    assert_eq!(accountant.producer.messages.len(), 2);
    let m1: serde_json::Value =
        serde_json::from_slice(&accountant.producer.messages[0]).unwrap();
    assert_eq!(m1["timestamp"], 60);
    assert_eq!(m1["shared_resource_id"], "r1");
    assert_eq!(m1["amount"], 1);
    let m2: serde_json::Value =
        serde_json::from_slice(&accountant.producer.messages[1]).unwrap();
    assert_eq!(m2["timestamp"], 120);
    assert_eq!(m2["shared_resource_id"], "r2");
    assert_eq!(m2["amount"], 2);
}
