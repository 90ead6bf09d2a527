use mesh_core::aggregate::Aggregate;
use mesh_core::aggregate::AggregateName;
use mesh_core::aggregate::AggregateStore;
use mesh_core::aggregate::AggregateValue;
use mesh_core::aggregate::merged;

#[test]
fn get_or_create_creates_once() {
    let mut store = AggregateStore::new();
    let first: Aggregate = store
        .get_or_create(7, AggregateName::BandwidthTotal)
        .expect("creation should succeed on an empty store");
    assert_eq!(first.user_id, 7);
    assert_eq!(first.name, AggregateName::BandwidthTotal);
    assert_eq!(first.value, AggregateValue::Null);
    assert_eq!(store.len(), 1);
    let again = store
        .get_or_create(7, AggregateName::BandwidthTotal)
        .expect("an existing row is always returned");
    assert_eq!(again.id, first.id);
    assert_eq!(again.created_at, first.created_at);
    assert_eq!(store.len(), 1);
}

#[test]
fn get_or_create_many_callers_observe_one_row() {
    let mut store = AggregateStore::new();
    let first = store
        .get_or_create(42, AggregateName::BandwidthTotal)
        .expect("creation should succeed on an empty store");
    for _ in 0..49 {
        let seen = store
            .get_or_create(42, AggregateName::BandwidthTotal)
            .expect("an existing row is always returned");
        assert_eq!(seen.id, first.id);
        assert_eq!(seen.created_at, first.created_at);
        assert_eq!(seen.value, first.value);
    }
    assert_eq!(store.len(), 1);
}

#[test]
fn distinct_keys_get_distinct_rows() {
    let mut store = AggregateStore::new();
    let a = store.get_or_create(1, AggregateName::Uptime).unwrap();
    let b = store.get_or_create(1, AggregateName::Latency).unwrap();
    let c = store.get_or_create(2, AggregateName::Uptime).unwrap();
    assert_ne!(a.id, b.id);
    assert_ne!(a.id, c.id);
    assert_eq!(store.len(), 3);
}

#[test]
fn get_on_empty_store_finds_nothing() {
    let store = AggregateStore::new();
    assert!(store.get(1, AggregateName::Uptime).is_none());
}

#[test]
fn update_value_round_trips() {
    let mut store = AggregateStore::new();
    let row = store.get_or_create(9, AggregateName::Uptime).unwrap();
    assert_eq!(row.value, AggregateValue::Null);
    store.update_value(9, AggregateName::Uptime, AggregateValue::Number(123));
    let seen = store
        .get_or_create(9, AggregateName::Uptime)
        .expect("an existing row is always returned");
    assert_eq!(seen.value, AggregateValue::Number(123));
    assert_eq!(seen.id, row.id);
    assert_eq!(seen.created_at, row.created_at);
}

#[test]
fn merged_starts_from_empty() {
    assert_eq!(merged(AggregateValue::Null, 5), AggregateValue::Number(5));
    assert_eq!(merged(AggregateValue::Null, 0), AggregateValue::Number(0));
}

#[test]
fn merged_accumulates() {
    assert_eq!(
        merged(AggregateValue::Number(3), 4),
        AggregateValue::Number(7)
    );
    assert_eq!(
        merged(AggregateValue::Number(0), 0),
        AggregateValue::Number(0)
    );
}

#[test]
fn merged_saturates_at_the_top() {
    assert_eq!(
        merged(AggregateValue::Number(u64::MAX), 1),
        AggregateValue::Number(u64::MAX)
    );
    assert_eq!(
        merged(AggregateValue::Number(u64::MAX - 2), 5),
        AggregateValue::Number(u64::MAX)
    );
    assert_eq!(
        merged(AggregateValue::Number(u64::MAX - 2), 2),
        AggregateValue::Number(u64::MAX)
    );
}
