//! The keys of a scan as a set: a store may enumerate a key more than once,
//! and a fetch wants each key once.

use vstd::prelude::*;
use vstd::hash_map::StringHashMap;
use crate::scatter::key_views;

verus! {

/// The keys of `scanned` without repetitions, each at its first occurrence.
pub open spec fn first_occurrences(scanned: Seq<Seq<char>>) -> Seq<Seq<char>>
    decreases scanned.len(),
{
    if scanned.len() == 0 {
        Seq::empty()
    } else {
        let rest = first_occurrences(scanned.drop_last());
        if rest.contains(scanned.last()) {
            rest
        } else {
            rest.push(scanned.last())
        }
    }
}

/// A key is among the first occurrences exactly when the scan enumerated it.
pub proof fn first_occurrences_keep_every_key(scanned: Seq<Seq<char>>, key: Seq<char>)
    ensures
        first_occurrences(scanned).contains(key) <==> scanned.contains(key),
    decreases scanned.len(),
{
    if scanned.len() > 0 {
        let front = scanned.drop_last();
        let rest = first_occurrences(front);
        let all = first_occurrences(scanned);
        first_occurrences_keep_every_key(front, key);
        if all.contains(key) {
            let k = choose|k: int| 0 <= k < all.len() && all[k] == key;
            if k < rest.len() {
                assert(rest[k] == key);
                assert(rest.contains(key));
                let j = choose|j: int| 0 <= j < front.len() && front[j] == key;
                assert(scanned[j] == key);
            } else {
                assert(scanned[scanned.len() - 1] == key);
            }
        }
        if scanned.contains(key) {
            let j = choose|j: int| 0 <= j < scanned.len() && scanned[j] == key;
            if j < front.len() {
                assert(front[j] == key);
                assert(front.contains(key));
                let k = choose|k: int| 0 <= k < rest.len() && rest[k] == key;
                assert(all[k] == key);
            } else if rest.contains(key) {
                let k = choose|k: int| 0 <= k < rest.len() && rest[k] == key;
                assert(all[k] == key);
            } else {
                assert(all[rest.len() as int] == key);
            }
        }
    }
}

/// The first occurrences hold no key twice, and no more keys than the scan.
pub proof fn first_occurrences_are_distinct(scanned: Seq<Seq<char>>)
    ensures
        first_occurrences(scanned).no_duplicates(),
        first_occurrences(scanned).len() <= scanned.len(),
    decreases scanned.len(),
{
    if scanned.len() > 0 {
        let rest = first_occurrences(scanned.drop_last());
        let all = first_occurrences(scanned);
        first_occurrences_are_distinct(scanned.drop_last());
        assert forall|a: int, b: int|
            0 <= a < all.len() && 0 <= b < all.len() && a != b implies all[a] != all[b] by {
            if a < rest.len() && b < rest.len() {
                assert(rest[a] != rest[b]);
            } else if a < rest.len() {
                assert(rest.contains(rest[a]));
            } else if b < rest.len() {
                assert(rest.contains(rest[b]));
            }
        }
    }
}

/// Makes a key set of a scan: drops every key that the scan has enumerated
/// before, and keeps the others in the order of the scan.
pub fn distinct_keys(scanned: Vec<String>) -> (keys: Vec<String>)
    ensures
        key_views(keys@) == first_occurrences(key_views(scanned@)),
{
    let ghost views = key_views(scanned@);
    let mut seen: StringHashMap<bool> = StringHashMap::new();
    let mut keys: Vec<String> = Vec::new();
    let mut i: usize = 0;
    assert(views.take(0) =~= Seq::<Seq<char>>::empty());
    assert(key_views(keys@) =~= Seq::<Seq<char>>::empty());
    while i < scanned.len()
        invariant
            i <= scanned@.len(),
            views == key_views(scanned@),
            key_views(keys@) == first_occurrences(views.take(i as int)),
            forall|key: Seq<char>| seen@.contains_key(key) <==> key_views(keys@).contains(key),
        decreases scanned@.len() - i,
    {
        let key = &scanned[i];
        proof {
            assert(views.take(i + 1).drop_last() =~= views.take(i as int));
            assert(views.take(i + 1).last() == key@);
        }
        if !seen.contains_key(key.as_str()) {
            let ghost before = key_views(keys@);
            seen.insert(key.clone(), true);
            keys.push(key.clone());
            proof {
                let after = key_views(keys@);
                assert(after =~= before.push(key@));
                assert forall|k: Seq<char>| seen@.contains_key(k) <==> after.contains(k) by {
                    if after.contains(k) {
                        let j = choose|j: int| 0 <= j < after.len() && after[j] == k;
                        if j < before.len() {
                            assert(before[j] == k);
                            assert(before.contains(k));
                        }
                    }
                    if seen@.contains_key(k) {
                        if k == key@ {
                            assert(after[before.len() as int] == k);
                        } else {
                            assert(before.contains(k));
                            let j = choose|j: int| 0 <= j < before.len() && before[j] == k;
                            assert(after[j] == k);
                        }
                    }
                }
            }
        }
        i += 1;
    }
    assert(views.take(i as int) =~= views);
    keys
}

} // verus!
