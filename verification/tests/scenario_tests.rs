use chrono::{TimeZone, Utc};
use usage_accountant::{
    FailingProducer, UsageAccountant, UsageAccumulator, UsageKey, UsageUnit,
};

fn ts(year: i32, month: u32, day: u32, hour: u32, min: u32, sec: u32) -> u64 {
    Utc.with_ymd_and_hms(year, month, day, hour, min, sec).unwrap().timestamp() as u64
}

fn amount_of(
    entries: &[(UsageKey, u64)],
    quantized_timestamp: u64,
    resource_id: &str,
    app_feature: &str,
    unit: UsageUnit,
) -> Option<u64> {
    for (key, amount) in entries {
        if key.quantized_timestamp == quantized_timestamp
            && key.resource_id == resource_id
            && key.app_feature == app_feature
            && key.unit == unit
        {
            return Some(*amount);
        }
    }
    None
}

#[test]
fn test_minute_granularity_scenario() {
    let mut accumulator = UsageAccumulator::new(Some(60));
    accumulator.record(ts(2023, 10, 8, 22, 15, 25), "r1", "f1", 100, UsageUnit::Bytes);
    accumulator.record(ts(2023, 10, 8, 22, 15, 45), "r1", "f1", 200, UsageUnit::Bytes);

    assert!(accumulator.should_flush(ts(2023, 10, 8, 22, 16, 25)));
    let first = accumulator.flush();
    assert_eq!(first.len(), 1);
    assert_eq!(
        amount_of(&first, ts(2023, 10, 8, 22, 15, 0), "r1", "f1", UsageUnit::Bytes),
        Some(300),
    );

    accumulator.record(ts(2023, 10, 8, 22, 16, 45), "r1", "f2", 50, UsageUnit::Bytes);
    assert!(accumulator.should_flush(ts(2023, 10, 8, 22, 17, 45)));
    let second = accumulator.flush();
    assert_eq!(second.len(), 1);
    assert_eq!(
        amount_of(&second, ts(2023, 10, 8, 22, 16, 0), "r1", "f2", UsageUnit::Bytes),
        Some(50),
    );
}

#[test]
fn test_zero_granularity_scenario() {
    let mut accumulator = UsageAccumulator::new(Some(0));
    accumulator.record(1000, "r1", "f1", 1, UsageUnit::Bytes);
    accumulator.record(1001, "r1", "f1", 2, UsageUnit::Bytes);
    accumulator.record(1001, "r1", "f1", 3, UsageUnit::Bytes);

    let ret = accumulator.flush();
    // Distinct raw timestamps stay distinct buckets; equal ones merge.
    assert_eq!(ret.len(), 2);
    assert_eq!(amount_of(&ret, 1000, "r1", "f1", UsageUnit::Bytes), Some(1));
    assert_eq!(amount_of(&ret, 1001, "r1", "f1", UsageUnit::Bytes), Some(5));
}

#[test]
fn test_failing_producer_stops_at_first_error() {
    let mut accountant = UsageAccountant::new(FailingProducer::new(1), Some(60));
    let res1 = accountant.record_at(100, "r1", "f1", 10, UsageUnit::Bytes);
    assert!(res1.is_ok());
    let res2 = accountant.record_at(110, "r1", "f2", 20, UsageUnit::Bytes);
    assert!(res2.is_ok());

    // The flush drains two buckets; the first send is accepted, the
    // second fails, and the error surfaces to the caller.
    let res = accountant.flush();
    assert!(res.is_err());
    assert_eq!(accountant.producer.messages.len(), 1);
    let m1: serde_json::Value =
        serde_json::from_slice(&accountant.producer.messages[0]).unwrap();
    assert_eq!(m1["app_feature"], "f1");
    assert_eq!(m1["amount"], 10);

    // The already-sent entry is not re-sent and the rest of the batch
    // is dropped: the next flush has nothing to send and succeeds.
    let res = accountant.flush();
    assert!(res.is_ok());
    assert_eq!(accountant.producer.messages.len(), 1);
}
