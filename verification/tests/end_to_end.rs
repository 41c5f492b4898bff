use cache_hydration::adapter::{resolve, start, CacheDatabaseAdapter};
use cache_hydration::bridge::{bridge, PendingHydration};
use cache_hydration::entity::{all_entity_types, EntityType, MissingKeyPolicy};
use cache_hydration::error::{FetchFailure, HydrationError};
use cache_hydration::hydrate::{fold, HydrationResult};
use cache_hydration::outcome::StoreReply;
use cache_hydration::scan::distinct_keys;
use cache_hydration::scatter::{Action, ScatterGather};

/// A store held in memory: keys with the reply that a `get` of each gives.
struct MemoryStore {
    records: Vec<(String, StoreReply)>,
    bound: usize,
    peak: usize,
}

impl MemoryStore {
    fn new(records: Vec<(&str, StoreReply)>, bound: usize) -> MemoryStore {
        MemoryStore {
            records: records.into_iter().map(|(k, r)| (k.to_string(), r)).collect(),
            bound,
            peak: 0,
        }
    }

    fn scan(&self, pattern: &str) -> Vec<String> {
        let prefix = pattern.trim_end_matches('*');
        self.records.iter().filter(|(k, _)| k.starts_with(prefix)).map(|(k, _)| k.clone()).collect()
    }

    fn get(&self, key: &str) -> StoreReply {
        match self.records.iter().find(|(k, _)| k == key) {
            Some((_, reply)) => reply.clone(),
            None => StoreReply::NotFound,
        }
    }

    /// Hydrates one entity type, answering the requests in flight newest
    /// first so that the order of completion differs from the order of issue.
    fn hydrate(&mut self, entity: EntityType) -> Result<HydrationResult, HydrationError> {
        let keys = distinct_keys(self.scan(&entity.pattern()));
        let mut fetcher = ScatterGather::new(entity, keys, self.bound)?;
        let mut waiting: Vec<usize> = Vec::new();
        loop {
            match fetcher.step() {
                Action::Issue { index } => {
                    waiting.push(index);
                    if fetcher.in_flight() > self.peak {
                        self.peak = fetcher.in_flight();
                    }
                }
                Action::Wait => {
                    let index = waiting.pop().unwrap();
                    let reply = self.get(fetcher.key(index));
                    assert!(fetcher.complete(index, reply));
                }
                Action::Finished => break,
            }
        }
        assert!(fetcher.is_finished());
        fold(entity.policy(), fetcher.into_outcomes())
    }

    fn spawn(&mut self, entity: EntityType) -> Result<PendingHydration, HydrationError> {
        let (delivery, handle) = bridge();
        let result = self.hydrate(entity);
        assert!(delivery.deliver(result));
        Ok(handle)
    }
}

impl CacheDatabaseAdapter for MemoryStore {
    fn load(&self) -> Result<HydrationResult, HydrationError> {
        Ok(HydrationResult::new())
    }

    fn load_currencies(&mut self) -> Result<PendingHydration, HydrationError> {
        self.spawn(EntityType::Currency)
    }

    fn load_instruments(&mut self) -> Result<PendingHydration, HydrationError> {
        self.spawn(EntityType::Instrument)
    }

    fn load_synthetics(&mut self) -> Result<PendingHydration, HydrationError> {
        self.spawn(EntityType::Synthetic)
    }

    fn load_accounts(&mut self) -> Result<PendingHydration, HydrationError> {
        self.spawn(EntityType::Account)
    }

    fn load_orders(&mut self) -> Result<PendingHydration, HydrationError> {
        self.spawn(EntityType::Order)
    }

    fn load_positions(&mut self) -> Result<HydrationResult, HydrationError> {
        Ok(HydrationResult::new())
    }
}

fn value(text: &str) -> StoreReply {
    StoreReply::Value(text.to_string())
}

#[test]
fn currencies_are_hydrated_into_their_mapping() {
    let mut store = MemoryStore::new(
        vec![
            ("currencies:USD", value("US Dollar")),
            ("currencies:EUR", value("Euro")),
            ("accounts:A1", value("first account")),
        ],
        4,
    );
    let handle = start(&mut store, EntityType::Currency).unwrap();
    let result = resolve(handle).unwrap();
    assert_eq!(result.len(), 2);
    assert_eq!(result.get("USD"), Some(&"US Dollar".to_string()));
    assert_eq!(result.get("EUR"), Some(&"Euro".to_string()));
    assert_eq!(result.get("A1"), None);
    assert!(result.dropped().is_empty());
    let mut entries = result.entries();
    entries.sort();
    assert_eq!(
        entries,
        vec![
            ("EUR".to_string(), "Euro".to_string()),
            ("USD".to_string(), "US Dollar".to_string()),
        ]
    );
}

#[test]
fn lenient_hydration_drops_a_failed_key() {
    let mut store = MemoryStore::new(
        vec![("accounts:A1", StoreReply::Failed("connection reset".to_string()))],
        64,
    );
    assert_eq!(EntityType::Account.policy(), MissingKeyPolicy::Lenient);
    let result = resolve(start(&mut store, EntityType::Account).unwrap()).unwrap();
    assert!(result.is_empty());
    assert_eq!(result.len(), 0);
    assert!(result.entries().is_empty());
    assert_eq!(result.dropped().len(), 1);
    assert_eq!(result.dropped()[0].key, "accounts:A1");
    assert_eq!(result.dropped()[0].failure, FetchFailure::StoreError);
    assert_eq!(result.dropped()[0].cause, "connection reset");
    assert_eq!(
        result.dropped()[0].message(),
        "dropped key: store error: accounts:A1: connection reset"
    );
}

#[test]
fn strict_hydration_aborts_on_a_failed_key() {
    let mut store = MemoryStore::new(
        vec![
            ("synthetics:S0", value("zeroth")),
            ("synthetics:S1", StoreReply::Failed("connection reset".to_string())),
        ],
        64,
    );
    assert_eq!(EntityType::Synthetic.policy(), MissingKeyPolicy::Strict);
    let result = resolve(start(&mut store, EntityType::Synthetic).unwrap());
    match result {
        Err(HydrationError::HydrationAborted { key, failure, cause }) => {
            assert_eq!(key, "synthetics:S1");
            assert_eq!(failure, FetchFailure::StoreError);
            assert_eq!(cause, "connection reset");
        }
        _ => panic!("the strict hydration did not abort"),
    }
}

#[test]
fn strict_hydration_of_a_consistent_store_maps_every_key() {
    let mut store = MemoryStore::new(
        vec![("synthetics:S0", value("zeroth")), ("synthetics:S1", value("first"))],
        1,
    );
    let result = resolve(start(&mut store, EntityType::Synthetic).unwrap()).unwrap();
    assert_eq!(result.identifiers(), &vec!["S0".to_string(), "S1".to_string()]);
    assert_eq!(result.get("S1"), Some(&"first".to_string()));
}

#[test]
fn a_hundred_thousand_keys_under_a_bound_of_sixty_four() {
    let texts: Vec<(String, String)> =
        (0..100_000).map(|i| (format!("orders:O-{}", i), format!("order {}", i))).collect();
    let records = texts.iter().map(|(k, v)| (k.clone(), value(v))).collect();
    let mut store = MemoryStore { records, bound: 64, peak: 0 };
    let keys = store.scan("orders*");
    assert_eq!(keys.len(), 100_000);

    let mut fetcher = ScatterGather::new(EntityType::Order, keys, store.bound).unwrap();
    let mut waiting: Vec<usize> = Vec::new();
    loop {
        match fetcher.step() {
            Action::Issue { index } => {
                waiting.push(index);
                store.peak = store.peak.max(fetcher.in_flight());
            }
            Action::Wait => {
                let index = waiting.pop().unwrap();
                let reply = store.records[index].1.clone();
                assert!(fetcher.complete(index, reply));
            }
            Action::Finished => break,
        }
    }
    assert_eq!(store.peak, 64);
    let result = fold(MissingKeyPolicy::Lenient, fetcher.into_outcomes()).unwrap();
    assert_eq!(result.len(), 100_000);
    assert_eq!(result.identifiers().len(), 100_000);
    assert_eq!(result.get("O-0"), Some(&"order 0".to_string()));
    assert_eq!(result.get("O-99999"), Some(&"order 99999".to_string()));
    assert!(result.dropped().is_empty());
}

#[test]
fn a_malformed_key_fails_the_hydration() {
    let mut store = MemoryStore::new(
        vec![("orders:O-1", value("first")), ("orders_archive:O-2", value("second"))],
        8,
    );
    assert_eq!(
        resolve(start(&mut store, EntityType::Order).unwrap()).err(),
        Some(HydrationError::MalformedKey { key: "orders_archive:O-2".to_string() })
    );
}

#[test]
fn hydrations_are_started_before_any_is_resolved() {
    let mut store = MemoryStore::new(
        vec![
            ("currencies:USD", value("US Dollar")),
            ("instruments:AUD/USD.SIM", value("pair")),
            ("synthetics:S1", value("synthetic")),
            ("accounts:A1", value("account")),
            ("accounts:A2", value("other account")),
            ("orders:O-1", StoreReply::NotFound),
        ],
        2,
    );
    let mut handles = Vec::new();
    for entity in all_entity_types() {
        handles.push(start(&mut store, entity).unwrap());
    }
    let mut sizes = Vec::new();
    while let Some(handle) = handles.pop() {
        sizes.push(resolve(handle).unwrap().len());
    }
    assert_eq!(sizes, vec![0, 2, 1, 1, 1]);
    assert!(store.peak <= 2);
}

#[test]
fn repeating_a_hydration_yields_the_same_mapping() {
    let mut store = MemoryStore::new(
        vec![
            ("currencies:USD", value("US Dollar")),
            ("currencies:EUR", value("Euro")),
            ("currencies:GBP", StoreReply::NotFound),
        ],
        2,
    );
    let first = resolve(start(&mut store, EntityType::Currency).unwrap()).unwrap();
    store.bound = 1;
    let second = resolve(start(&mut store, EntityType::Currency).unwrap()).unwrap();
    let mut a = first.entries();
    let mut b = second.entries();
    assert_ne!(a, b);
    a.sort();
    b.sort();
    assert_eq!(a, b);
    assert_eq!(a.len(), 2);
}

#[test]
fn a_closed_bridge_is_reported() {
    let (delivery, handle) = bridge();
    drop(delivery);
    let error = handle.resolve().err().unwrap();
    assert_eq!(error, HydrationError::BridgeClosed);
    assert_eq!(error.message(), "bridge closed before a result was delivered");
}

#[test]
fn a_delivery_to_nobody_is_refused() {
    let (delivery, handle) = bridge();
    drop(handle);
    assert!(!delivery.deliver(Ok(HydrationResult::new())));
}

#[test]
fn a_delivered_error_is_relayed_as_it_is() {
    let (delivery, handle) = bridge();
    let error = HydrationError::DuplicateIdentifier { identifier: "USD".to_string() };
    assert!(delivery.deliver(Err(error.clone())));
    assert_eq!(handle.resolve().err(), Some(error));
}
