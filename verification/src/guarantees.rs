//! What holds of every hydration, whatever the store answered and in whatever
//! order the answers arrived.

use vstd::prelude::*;
use crate::codec::{is_identifier, key_text, parse_is_injective, parse_spec};
use crate::counting::{is_permutation, permutation_is_onto};
use crate::entity::{EntityType, MissingKeyPolicy};
use crate::hydrate::{
    acceptable, acceptable_without_last, dropped_of, every_outcome_is_accounted_for,
    mapping_domain, mapping_of, offends,
};
use crate::outcome::{concerns, found_identifier, found_value, outcome_spec, FetchOutcomeShape};
use crate::pipeline::{all_keys_decode, outcomes_in_order, Answer};
use crate::scatter::attributed;

verus! {

/// The identifiers that the scanned keys decode to.
pub open spec fn derivable(entity: EntityType, keys: Seq<Seq<char>>) -> Set<Seq<char>> {
    Set::new(
        |id: Seq<char>|
            exists|i: int| 0 <= i < keys.len() && parse_spec(entity, #[trigger] keys[i]) == Some(id),
    )
}

/// Whether `b` holds the outcomes of `a` in another order: `b[i]` is `a[order[i]]`.
pub open spec fn rearranged(
    a: Seq<FetchOutcomeShape>,
    b: Seq<FetchOutcomeShape>,
    order: Seq<int>,
) -> bool {
    &&& a.len() == b.len()
    &&& order.len() == a.len()
    &&& is_permutation(order)
    &&& forall|i: int| 0 <= i < b.len() ==> #[trigger] b[i] == a[order[i]]
}

/// Whether every value that the outcomes found is the value that `store` holds
/// under the key of the identifier it was found for.
pub open spec fn faithful(
    entity: EntityType,
    store: Map<Seq<char>, Seq<char>>,
    outcomes: Seq<FetchOutcomeShape>,
) -> bool {
    forall|j: int|
        0 <= j < outcomes.len() ==> match #[trigger] outcomes[j] {
            FetchOutcomeShape::Found { identifier, value, .. } => {
                &&& is_identifier(identifier)
                &&& store.contains_key(key_text(entity, identifier))
                &&& store[key_text(entity, identifier)] == value
            },
            _ => true,
        }
}

/// Whether the outcomes found every record of `entity` that `store` holds.
pub open spec fn exhaustive(
    entity: EntityType,
    store: Map<Seq<char>, Seq<char>>,
    outcomes: Seq<FetchOutcomeShape>,
) -> bool {
    forall|id: Seq<char>|
        is_identifier(id) && #[trigger] store.contains_key(key_text(entity, id)) ==> exists|j: int|
            0 <= j < outcomes.len() && #[trigger] found_identifier(outcomes[j]) == Some(id)
}

/// The mapping from identifier to value that `store` holds for `entity`.
pub open spec fn stored_mapping(entity: EntityType, store: Map<Seq<char>, Seq<char>>) -> Map<
    Seq<char>,
    Seq<char>,
> {
    Map::new(
        |id: Seq<char>| is_identifier(id) && store.contains_key(key_text(entity, id)),
        |id: Seq<char>| store[key_text(entity, id)],
    )
}

/// Where no identifier is found twice, the mapping holds for each found
/// identifier the value that was found with it.
pub proof fn mapping_holds_found_value(
    policy: MissingKeyPolicy,
    outcomes: Seq<FetchOutcomeShape>,
    j: int,
)
    requires
        acceptable(policy, outcomes),
        0 <= j < outcomes.len(),
        found_identifier(outcomes[j]).is_some(),
    ensures
        mapping_of(outcomes).contains_key(found_identifier(outcomes[j]).unwrap()),
        mapping_of(outcomes)[found_identifier(outcomes[j]).unwrap()] == found_value(
            outcomes[j],
        ).unwrap(),
    decreases outcomes.len(),
{
    let front = outcomes.drop_last();
    let last = outcomes.len() - 1;
    let id = found_identifier(outcomes[j]).unwrap();
    if j < last {
        acceptable_without_last(policy, outcomes);
        assert(front[j] == outcomes[j]);
        mapping_holds_found_value(policy, front, j);
        assert(!offends(policy, outcomes, last));
        if found_identifier(outcomes[last]) == Some(id) {
            assert(found_identifier(outcomes[j]) == Some(id));
        }
    }
}

/// Every identifier of a hydration's mapping is the identifier of a scanned
/// key: the mapping never names a record that the scan did not see.
pub proof fn mapping_is_within_scanned_keys(
    entity: EntityType,
    keys: Seq<Seq<char>>,
    outcomes: Seq<FetchOutcomeShape>,
    origins: Seq<int>,
)
    requires
        attributed(entity, keys, outcomes, origins),
    ensures
        mapping_of(outcomes).dom().subset_of(derivable(entity, keys)),
{
    assert forall|id: Seq<char>| mapping_of(outcomes).dom().contains(id) implies derivable(
        entity,
        keys,
    ).contains(id) by {
        mapping_domain(outcomes, id);
        let j = choose|j: int|
            0 <= j < outcomes.len() && #[trigger] found_identifier(outcomes[j]) == Some(id);
        assert(0 <= origins[j] < keys.len());
        assert(parse_spec(entity, keys[origins[j]]) == Some(id));
    }
}

/// A strict hydration that succeeds over a complete set of outcomes maps
/// exactly the identifiers of the scanned keys.
pub proof fn strict_mapping_is_every_scanned_key(
    entity: EntityType,
    keys: Seq<Seq<char>>,
    outcomes: Seq<FetchOutcomeShape>,
    origins: Seq<int>,
)
    requires
        attributed(entity, keys, outcomes, origins),
        keys.len() == outcomes.len(),
        is_permutation(origins),
        acceptable(MissingKeyPolicy::Strict, outcomes),
    ensures
        mapping_of(outcomes).dom() == derivable(entity, keys),
{
    mapping_is_within_scanned_keys(entity, keys, outcomes, origins);
    assert forall|id: Seq<char>| derivable(entity, keys).contains(id) implies mapping_of(
        outcomes,
    ).dom().contains(id) by {
        let i = choose|i: int|
            0 <= i < keys.len() && parse_spec(entity, #[trigger] keys[i]) == Some(id);
        permutation_is_onto(origins, i);
        let j = choose|j: int| 0 <= j < origins.len() && origins[j] == i;
        assert(!offends(MissingKeyPolicy::Strict, outcomes, j));
        assert(concerns(entity, outcomes[j], keys[origins[j]]));
        assert(found_identifier(outcomes[j]) == Some(id));
        mapping_domain(outcomes, id);
    }
    assert(mapping_of(outcomes).dom() =~= derivable(entity, keys));
}

/// A lenient hydration of a key set always succeeds: where no key is scanned
/// twice and no key has two outcomes, no identifier is found twice, so nothing
/// can stop the fold.
pub proof fn lenient_hydration_of_a_key_set_succeeds(
    entity: EntityType,
    keys: Seq<Seq<char>>,
    outcomes: Seq<FetchOutcomeShape>,
    origins: Seq<int>,
)
    requires
        attributed(entity, keys, outcomes, origins),
        keys.no_duplicates(),
        origins.no_duplicates(),
    ensures
        acceptable(MissingKeyPolicy::Lenient, outcomes),
{
    assert forall|i: int| 0 <= i < outcomes.len() implies !offends(
        MissingKeyPolicy::Lenient,
        outcomes,
        i,
    ) by {
        if offends(MissingKeyPolicy::Lenient, outcomes, i) {
            let j = choose|j: int|
                0 <= j < i && #[trigger] found_identifier(outcomes[j]) == found_identifier(
                    outcomes[i],
                );
            assert(0 <= origins[i] < keys.len() && 0 <= origins[j] < keys.len());
            assert(concerns(entity, outcomes[i], keys[origins[i]]));
            assert(concerns(entity, outcomes[j], keys[origins[j]]));
            parse_is_injective(entity, keys[origins[i]], keys[origins[j]]);
            assert(origins[i] != origins[j]);
        }
    }
}

/// If the outcomes in one order are accepted, so are they in any other order.
proof fn acceptable_in_any_order(
    policy: MissingKeyPolicy,
    a: Seq<FetchOutcomeShape>,
    b: Seq<FetchOutcomeShape>,
    order: Seq<int>,
)
    requires
        rearranged(a, b, order),
        acceptable(policy, a),
    ensures
        acceptable(policy, b),
{
    assert forall|i: int| 0 <= i < b.len() implies !offends(policy, b, i) by {
        if offends(policy, b, i) {
            assert(b[i] == a[order[i]]);
            assert(0 <= order[i] < a.len());
            assert(!offends(policy, a, order[i]));
            let j = choose|j: int|
                0 <= j < i && #[trigger] found_identifier(b[j]) == found_identifier(b[i]);
            assert(b[j] == a[order[j]]);
            assert(0 <= order[j] < a.len());
            assert(order[i] != order[j]);
            assert(!offends(policy, a, order[j]));
            if order[j] < order[i] {
                assert(found_identifier(a[order[j]]) == found_identifier(a[order[i]]));
            } else {
                assert(found_identifier(a[order[i]]) == found_identifier(a[order[j]]));
            }
        }
    }
}

/// The order that undoes `order`.
proof fn inverse_order(order: Seq<int>) -> (back: Seq<int>)
    requires
        is_permutation(order),
    ensures
        back.len() == order.len(),
        is_permutation(back),
        forall|i: int| 0 <= i < order.len() ==> 0 <= #[trigger] back[i] < order.len() && order[back[i]] == i,
{
    let back = Seq::new(
        order.len(),
        |i: int| choose|j: int| 0 <= j < order.len() && order[j] == i,
    );
    assert forall|i: int| 0 <= i < order.len() implies 0 <= #[trigger] back[i] < order.len()
        && order[back[i]] == i by {
        permutation_is_onto(order, i);
    }
    assert forall|x: int, y: int|
        0 <= x < back.len() && 0 <= y < back.len() && x != y implies back[x] != back[y] by {
        assert(order[back[x]] == x && order[back[y]] == y);
    }
    back
}

/// The mapping of a hydration does not depend on the order in which the
/// fetches complete: the same outcomes in any two orders are accepted or
/// refused together, and where they are accepted they give the same mapping.
/// A concurrent fetch therefore yields what a sequential one yields.
pub proof fn hydration_ignores_completion_order(
    policy: MissingKeyPolicy,
    a: Seq<FetchOutcomeShape>,
    b: Seq<FetchOutcomeShape>,
    order: Seq<int>,
)
    requires
        rearranged(a, b, order),
    ensures
        acceptable(policy, a) <==> acceptable(policy, b),
        acceptable(policy, a) ==> mapping_of(a) == mapping_of(b),
{
    let back = inverse_order(order);
    assert(rearranged(b, a, back)) by {
        assert forall|k: int| 0 <= k < a.len() implies #[trigger] a[k] == b[back[k]] by {
            assert(b[back[k]] == a[order[back[k]]]);
        }
    }
    if acceptable(policy, a) {
        acceptable_in_any_order(policy, a, b, order);
        assert forall|id: Seq<char>| #[trigger]
            mapping_of(a).contains_key(id) == mapping_of(b).contains_key(id) && (mapping_of(
                a,
            ).contains_key(id) ==> mapping_of(a)[id] == mapping_of(b)[id]) by {
            mapping_domain(a, id);
            mapping_domain(b, id);
            if mapping_of(a).contains_key(id) {
                let k = choose|k: int|
                    0 <= k < a.len() && #[trigger] found_identifier(a[k]) == Some(id);
                assert(a[k] == b[back[k]]);
                assert(found_identifier(b[back[k]]) == Some(id));
                mapping_holds_found_value(policy, a, k);
                mapping_holds_found_value(policy, b, back[k]);
            }
            if mapping_of(b).contains_key(id) {
                let i = choose|i: int|
                    0 <= i < b.len() && #[trigger] found_identifier(b[i]) == Some(id);
                assert(b[i] == a[order[i]]);
                assert(found_identifier(a[order[i]]) == Some(id));
            }
        }
        assert(mapping_of(a) =~= mapping_of(b));
    }
    if acceptable(policy, b) {
        acceptable_in_any_order(policy, b, a, back);
    }
}

/// Where the store answered every key with a value, an accepted hydration maps
/// as many identifiers as there are outcomes: no key is lost.
pub proof fn hydration_without_failures_maps_every_key(
    policy: MissingKeyPolicy,
    outcomes: Seq<FetchOutcomeShape>,
)
    requires
        acceptable(policy, outcomes),
        forall|j: int| 0 <= j < outcomes.len() ==> (#[trigger] found_identifier(outcomes[j])).is_some(),
    ensures
        mapping_of(outcomes).dom().finite(),
        mapping_of(outcomes).len() == outcomes.len(),
{
    every_outcome_is_accounted_for(policy, outcomes);
    nothing_is_dropped_without_failures(outcomes);
}

/// Outcomes that all found their value drop no key.
proof fn nothing_is_dropped_without_failures(outcomes: Seq<FetchOutcomeShape>)
    requires
        forall|j: int| 0 <= j < outcomes.len() ==> (#[trigger] found_identifier(outcomes[j])).is_some(),
    ensures
        dropped_of(outcomes).len() == 0,
    decreases outcomes.len(),
{
    if outcomes.len() > 0 {
        let front = outcomes.drop_last();
        assert forall|j: int| 0 <= j < front.len() implies (#[trigger] found_identifier(
            front[j],
        )).is_some() by {
            assert(found_identifier(outcomes[j]).is_some());
        }
        nothing_is_dropped_without_failures(front);
        assert(found_identifier(outcomes[outcomes.len() - 1]).is_some());
    }
}

/// A fetch whose requests complete in any order hydrates as the same answers
/// taken in the order of the scan do: where each key is answered as it is in
/// `answers`, the two are accepted or refused together and give one mapping.
pub proof fn concurrent_fetch_matches_sequential(
    entity: EntityType,
    policy: MissingKeyPolicy,
    answers: Seq<Answer>,
    outcomes: Seq<FetchOutcomeShape>,
    origins: Seq<int>,
)
    requires
        all_keys_decode(entity, answers),
        outcomes.len() == answers.len(),
        origins.len() == answers.len(),
        is_permutation(origins),
        forall|j: int|
            0 <= j < outcomes.len() ==> #[trigger] outcomes[j] == outcome_spec(
                entity,
                parse_spec(entity, answers[origins[j]].key@).unwrap(),
                answers[origins[j]].key@,
                answers[origins[j]].reply,
            ),
    ensures
        acceptable(policy, outcomes) <==> acceptable(policy, outcomes_in_order(entity, answers)),
        acceptable(policy, outcomes) ==> mapping_of(outcomes) == mapping_of(
            outcomes_in_order(entity, answers),
        ),
{
    let in_order = outcomes_in_order(entity, answers);
    assert(rearranged(in_order, outcomes, origins)) by {
        assert forall|j: int| 0 <= j < outcomes.len() implies #[trigger] outcomes[j]
            == in_order[origins[j]] by {
            assert(0 <= origins[j] < answers.len());
        }
    }
    hydration_ignores_completion_order(policy, in_order, outcomes, origins);
}

/// A hydration that succeeds over outcomes that report the store faithfully and
/// leave none of its records out yields exactly what the store holds.
pub proof fn hydration_reflects_store(
    entity: EntityType,
    policy: MissingKeyPolicy,
    store: Map<Seq<char>, Seq<char>>,
    outcomes: Seq<FetchOutcomeShape>,
)
    requires
        acceptable(policy, outcomes),
        faithful(entity, store, outcomes),
        exhaustive(entity, store, outcomes),
    ensures
        mapping_of(outcomes) == stored_mapping(entity, store),
{
    let expected = stored_mapping(entity, store);
    assert forall|id: Seq<char>| #[trigger]
        mapping_of(outcomes).contains_key(id) == expected.contains_key(id) && (mapping_of(
            outcomes,
        ).contains_key(id) ==> mapping_of(outcomes)[id] == expected[id]) by {
        mapping_domain(outcomes, id);
        if mapping_of(outcomes).contains_key(id) {
            let j = choose|j: int|
                0 <= j < outcomes.len() && #[trigger] found_identifier(outcomes[j]) == Some(id);
            mapping_holds_found_value(policy, outcomes, j);
        }
        if expected.contains_key(id) {
            assert(store.contains_key(key_text(entity, id)));
        }
    }
    assert(mapping_of(outcomes) =~= expected);
}

/// Hydrating twice from an unchanged store yields the same mapping, whatever
/// the order of the scan and of the fetches in either run.
pub proof fn hydration_is_repeatable(
    entity: EntityType,
    policy: MissingKeyPolicy,
    store: Map<Seq<char>, Seq<char>>,
    first: Seq<FetchOutcomeShape>,
    second: Seq<FetchOutcomeShape>,
)
    requires
        acceptable(policy, first),
        acceptable(policy, second),
        faithful(entity, store, first),
        faithful(entity, store, second),
        exhaustive(entity, store, first),
        exhaustive(entity, store, second),
    ensures
        mapping_of(first) == mapping_of(second),
{
    hydration_reflects_store(entity, policy, store, first);
    hydration_reflects_store(entity, policy, store, second);
}

} // verus!
