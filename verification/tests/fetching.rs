use cache_hydration::entity::{EntityType, MissingKeyPolicy};
use cache_hydration::error::HydrationError;
use cache_hydration::hydrate::fold;
use cache_hydration::outcome::{FetchOutcome, StoreReply};
use cache_hydration::pipeline::{hydrate, Answer};
use cache_hydration::scan::distinct_keys;
use cache_hydration::scatter::{Action, ScatterGather};

fn keys(n: usize) -> Vec<String> {
    (0..n).map(|i| format!("orders:O-{}", i)).collect()
}

fn value(i: usize) -> StoreReply {
    StoreReply::Value(format!("order {}", i))
}

#[test]
fn the_bound_limits_the_requests_in_flight() {
    let mut fetcher = ScatterGather::new(EntityType::Order, keys(5), 2).unwrap();
    assert_eq!(fetcher.key_count(), 5);
    assert_eq!(fetcher.in_flight(), 0);
    assert!(!fetcher.is_finished());
    assert_eq!(fetcher.step(), Action::Issue { index: 0 });
    assert_eq!(fetcher.step(), Action::Issue { index: 1 });
    assert_eq!(fetcher.in_flight(), 2);
    assert_eq!(fetcher.step(), Action::Wait);
    assert_eq!(fetcher.step(), Action::Wait);
    assert!(fetcher.complete(1, value(1)));
    assert_eq!(fetcher.in_flight(), 1);
    assert_eq!(fetcher.step(), Action::Issue { index: 2 });
    assert_eq!(fetcher.step(), Action::Wait);
    assert!(fetcher.complete(0, value(0)));
    assert!(fetcher.complete(2, StoreReply::NotFound));
    assert_eq!(fetcher.step(), Action::Issue { index: 3 });
    assert_eq!(fetcher.step(), Action::Issue { index: 4 });
    assert_eq!(fetcher.step(), Action::Wait);
    assert!(fetcher.complete(4, StoreReply::Failed("timeout".to_string())));
    assert!(!fetcher.is_finished());
    assert!(fetcher.complete(3, value(3)));
    assert_eq!(fetcher.step(), Action::Finished);
    assert!(fetcher.is_finished());
    assert_eq!(fetcher.in_flight(), 0);

    let outcomes = fetcher.into_outcomes();
    assert_eq!(outcomes.len(), 5);
    assert_eq!(outcomes[2], FetchOutcome::Missing { key: "orders:O-2".to_string() });
    assert_eq!(
        outcomes[3],
        FetchOutcome::StoreError { key: "orders:O-4".to_string(), cause: "timeout".to_string() }
    );
    let result = fold(MissingKeyPolicy::Lenient, outcomes).unwrap();
    assert_eq!(result.len(), 3);
    assert_eq!(result.get("O-1"), Some(&"order 1".to_string()));
    assert_eq!(result.identifiers(), &vec!["O-1".to_string(), "O-0".to_string(), "O-3".to_string()]);
    assert_eq!(result.dropped().len(), 2);
}

#[test]
fn a_reply_that_is_not_awaited_changes_nothing() {
    let mut fetcher = ScatterGather::new(EntityType::Order, keys(3), 4).unwrap();
    assert!(!fetcher.complete(0, value(0)));
    assert_eq!(fetcher.step(), Action::Issue { index: 0 });
    assert!(!fetcher.complete(1, value(1)));
    assert!(!fetcher.complete(3, value(3)));
    assert!(!fetcher.complete(usize::MAX, value(3)));
    assert!(fetcher.complete(0, value(0)));
    assert!(!fetcher.complete(0, value(0)));
    assert_eq!(fetcher.in_flight(), 0);
    assert_eq!(fetcher.key(2), "orders:O-2");
    assert_eq!(fetcher.into_outcomes().len(), 1);
}

#[test]
fn a_fetch_of_no_keys_is_finished_at_once() {
    let mut fetcher = ScatterGather::new(EntityType::Account, Vec::new(), 1).unwrap();
    assert!(fetcher.is_finished());
    assert_eq!(fetcher.step(), Action::Finished);
    assert!(fetcher.into_outcomes().is_empty());
}

#[test]
fn a_malformed_key_fails_the_fetch_before_it_starts() {
    let scanned = vec![
        "orders:O-1".to_string(),
        "orders:".to_string(),
        "orders:O:3".to_string(),
    ];
    assert_eq!(
        ScatterGather::new(EntityType::Order, scanned, 8).err(),
        Some(HydrationError::MalformedKey { key: "orders:".to_string() })
    );
}

#[test]
fn a_bound_of_zero_leaves_room_for_one_request() {
    let mut fetcher = ScatterGather::new(EntityType::Order, keys(2), 0).unwrap();
    assert_eq!(fetcher.step(), Action::Issue { index: 0 });
    assert_eq!(fetcher.step(), Action::Wait);
    assert!(fetcher.complete(0, value(0)));
    assert_eq!(fetcher.step(), Action::Issue { index: 1 });
    assert_eq!(fetcher.step(), Action::Wait);
    assert!(fetcher.complete(1, value(1)));
    assert_eq!(fetcher.step(), Action::Finished);
}

#[test]
fn a_bound_of_one_fetches_in_the_order_of_the_scan() {
    let mut fetcher = ScatterGather::new(EntityType::Order, keys(3), 1).unwrap();
    let mut issued = Vec::new();
    loop {
        match fetcher.step() {
            Action::Issue { index } => {
                issued.push(index);
                assert_eq!(fetcher.step(), Action::Wait);
                assert!(fetcher.complete(index, value(index)));
            }
            Action::Wait => panic!("nothing is in flight"),
            Action::Finished => break,
        }
    }
    assert_eq!(issued, vec![0, 1, 2]);
}

#[test]
fn a_concurrent_fetch_yields_what_a_sequential_one_yields() {
    let scanned = keys(50);
    let answers: Vec<Answer> = scanned
        .iter()
        .enumerate()
        .map(|(i, key)| Answer {
            key: key.clone(),
            reply: if i % 7 == 3 { StoreReply::NotFound } else { value(i) },
        })
        .collect();
    let sequential = hydrate(EntityType::Order, MissingKeyPolicy::Lenient, &answers).unwrap();

    let mut fetcher = ScatterGather::new(EntityType::Order, scanned, 8).unwrap();
    let mut waiting: Vec<usize> = Vec::new();
    loop {
        match fetcher.step() {
            Action::Issue { index } => waiting.push(index),
            Action::Wait => {
                let index = waiting.pop().unwrap();
                assert!(fetcher.complete(index, answers[index].reply.clone()));
            }
            Action::Finished => break,
        }
    }
    let concurrent = fold(MissingKeyPolicy::Lenient, fetcher.into_outcomes()).unwrap();

    assert_eq!(concurrent.len(), sequential.len());
    assert_eq!(sequential.len(), 43);
    assert_ne!(concurrent.identifiers(), sequential.identifiers());
    for id in sequential.identifiers() {
        assert_eq!(concurrent.get(id), sequential.get(id));
    }
    assert_eq!(concurrent.dropped().len(), 7);
    assert!(hydrate(EntityType::Order, MissingKeyPolicy::Strict, &answers).is_err());
}

#[test]
fn a_scan_becomes_a_key_set() {
    let scanned = vec![
        "orders:O-1".to_string(),
        "orders:O-2".to_string(),
        "orders:O-1".to_string(),
        "orders:O-3".to_string(),
        "orders:O-2".to_string(),
    ];
    assert_eq!(
        distinct_keys(scanned),
        vec!["orders:O-1".to_string(), "orders:O-2".to_string(), "orders:O-3".to_string()]
    );
    assert_eq!(distinct_keys(Vec::new()), Vec::<String>::new());
    assert_eq!(distinct_keys(keys(4)), keys(4));
}

#[test]
fn a_key_scanned_twice_is_found_twice() {
    let scanned = vec!["orders:O-1".to_string(), "orders:O-1".to_string()];
    let mut fetcher = ScatterGather::new(EntityType::Order, scanned, 2).unwrap();
    assert_eq!(fetcher.step(), Action::Issue { index: 0 });
    assert_eq!(fetcher.step(), Action::Issue { index: 1 });
    assert!(fetcher.complete(0, value(1)));
    assert!(fetcher.complete(1, value(1)));
    assert_eq!(
        fold(MissingKeyPolicy::Lenient, fetcher.into_outcomes()).err(),
        Some(HydrationError::DuplicateIdentifier { identifier: "O-1".to_string() })
    );
}
