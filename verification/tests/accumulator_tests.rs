use chrono::{TimeZone, Utc};
use usage_accountant::{UsageAccumulator, UsageKey, UsageUnit};

fn ts(year: i32, month: u32, day: u32, hour: u32, min: u32, sec: u32) -> u64 {
    Utc.with_ymd_and_hms(year, month, day, hour, min, sec).unwrap().timestamp() as u64
}

fn amount_of(
    entries: &[(UsageKey, u64)],
    quantized_timestamp: u64,
    resource_id: &str,
    app_feature: &str,
    unit: UsageUnit,
) -> Option<u64> {
    for (key, amount) in entries {
        if key.quantized_timestamp == quantized_timestamp
            && key.resource_id == resource_id
            && key.app_feature == app_feature
            && key.unit == unit
        {
            return Some(*amount);
        }
    }
    None
}

#[test]
fn empty_batch() {
    let mut accumulator = UsageAccumulator::new(None);
    assert!(!accumulator.should_flush(ts(2023, 10, 8, 22, 15, 25)));
    assert!(!accumulator.should_flush(ts(2023, 10, 8, 22, 16, 25)));

    let message = accumulator.flush();
    assert_eq!(message.len(), 0);
}

#[test]
fn test_multiple_entries() {
    let mut accumulator = UsageAccumulator::new(None);
    accumulator.record(
        ts(2023, 10, 8, 22, 15, 25),
        "genericmetrics_consumer",
        "transactions",
        100,
        UsageUnit::Milliseconds,
    );
    accumulator.record(
        ts(2023, 10, 8, 22, 15, 45),
        "genericmetrics_consumer",
        "spans",
        200,
        UsageUnit::Milliseconds,
    );

    assert!(!accumulator.should_flush(ts(2023, 10, 8, 22, 15, 25)));
    assert!(accumulator.should_flush(ts(2023, 10, 8, 22, 16, 25)));
    let ret = accumulator.flush();
    assert_eq!(ret.len(), 2);
    assert_eq!(
        amount_of(
            &ret,
            ts(2023, 10, 8, 22, 15, 0),
            "genericmetrics_consumer",
            "transactions",
            UsageUnit::Milliseconds,
        ),
        Some(100),
    );
    assert_eq!(
        amount_of(
            &ret,
            ts(2023, 10, 8, 22, 15, 0),
            "genericmetrics_consumer",
            "spans",
            UsageUnit::Milliseconds,
        ),
        Some(200),
    );

    let message = accumulator.flush();
    assert_eq!(message.len(), 0);
}

#[test]
fn test_merge_entries() {
    let mut accumulator = UsageAccumulator::new(None);
    accumulator.record(
        ts(2023, 10, 8, 22, 15, 25),
        "genericmetrics_consumer",
        "transactions",
        100,
        UsageUnit::Milliseconds,
    );
    accumulator.record(
        ts(2023, 10, 8, 22, 15, 45),
        "genericmetrics_consumer",
        "transactions",
        100,
        UsageUnit::Milliseconds,
    );
    accumulator.record(
        ts(2023, 10, 8, 22, 16, 45),
        "genericmetrics_consumer",
        "transactions",
        100,
        UsageUnit::Milliseconds,
    );

    let ret = accumulator.flush();
    assert_eq!(ret.len(), 2);
    assert_eq!(
        amount_of(
            &ret,
            ts(2023, 10, 8, 22, 15, 0),
            "genericmetrics_consumer",
            "transactions",
            UsageUnit::Milliseconds,
        ),
        Some(200),
    );
    assert_eq!(
        amount_of(
            &ret,
            ts(2023, 10, 8, 22, 16, 0),
            "genericmetrics_consumer",
            "transactions",
            UsageUnit::Milliseconds,
        ),
        Some(100),
    );

    let message = accumulator.flush();
    assert_eq!(message.len(), 0);
}

#[test]
fn test_flush_threshold_boundary() {
    let mut accumulator = UsageAccumulator::new(Some(60));
    accumulator.record(125, "r1", "f1", 1, UsageUnit::Bytes);
    // The first report's quantized timestamp is 120.
    assert!(!accumulator.should_flush(125));
    assert!(!accumulator.should_flush(179));
    assert!(accumulator.should_flush(180));
    assert!(accumulator.should_flush(200));
}

#[test]
fn test_saturating_merge() {
    let mut accumulator = UsageAccumulator::new(Some(60));
    accumulator.record(120, "r1", "f1", u64::MAX, UsageUnit::Bytes);
    accumulator.record(121, "r1", "f1", 5, UsageUnit::Bytes);
    let ret = accumulator.flush();
    assert_eq!(ret.len(), 1);
    assert_eq!(amount_of(&ret, 120, "r1", "f1", UsageUnit::Bytes), Some(u64::MAX));
}

#[test]
fn test_fresh_epoch_after_flush() {
    let mut accumulator = UsageAccumulator::new(Some(60));
    accumulator.record(120, "r1", "f1", 1, UsageUnit::Bytes);
    assert!(accumulator.should_flush(500));
    accumulator.flush();
    // The new epoch starts at the next report's own timestamp.
    accumulator.record(600, "r1", "f1", 1, UsageUnit::Bytes);
    assert!(!accumulator.should_flush(500));
    assert!(!accumulator.should_flush(659));
    assert!(accumulator.should_flush(660));
}
