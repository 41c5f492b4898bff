//! Folding fetch outcomes into a hydration result under a missing-key policy.

use vstd::prelude::*;
use vstd::hash_map::StringHashMap;
use vstd::seq_lib::seq_to_set_is_finite;
use vstd::string::*;
use crate::entity::MissingKeyPolicy;
use crate::error::{FetchFailure, HydrationError, HydrationErrorView};
use crate::outcome::{found_identifier, shapes_of, FetchOutcome, FetchOutcomeShape};

verus! {

/// A key that a lenient hydration left out of its mapping, with the reason.
#[derive(Clone, Debug, PartialEq, Eq)]
pub struct DroppedKey {
    pub key: String,
    pub failure: FetchFailure,
    pub cause: String,
}

/// The mathematical content of a [`DroppedKey`].
pub struct DroppedKeyView {
    pub key: Seq<char>,
    pub failure: FetchFailure,
    pub cause: Seq<char>,
}

impl View for DroppedKey {
    type V = DroppedKeyView;

    open spec fn view(&self) -> DroppedKeyView {
        DroppedKeyView { key: self.key@, failure: self.failure, cause: self.cause@ }
    }
}

/// The text that reports a dropped key: the raw key, prefix included, and why
/// it was dropped.
pub open spec fn dropped_text(dropped: DroppedKeyView) -> Seq<char> {
    match dropped.failure {
        FetchFailure::NotFound => "dropped key: not found: "@ + dropped.key,
        FetchFailure::StoreError => "dropped key: store error: "@ + dropped.key + ": "@
            + dropped.cause,
    }
}

impl DroppedKey {
    /// The text that reports this dropped key.
    pub fn message(&self) -> (text: String)
        ensures
            text@ == dropped_text(self@),
    {
        match self.failure {
            FetchFailure::NotFound => {
                let mut text = String::from_str("dropped key: not found: ");
                text.append(self.key.as_str());
                text
            },
            FetchFailure::StoreError => {
                let mut text = String::from_str("dropped key: store error: ");
                text.append(self.key.as_str());
                text.append(": ");
                text.append(self.cause.as_str());
                text
            },
        }
    }
}

/// The drop that a failed outcome amounts to; `None` for an outcome that found its value.
pub open spec fn dropped_entry(outcome: FetchOutcomeShape) -> Option<DroppedKeyView> {
    match outcome {
        FetchOutcomeShape::Found { .. } => None,
        FetchOutcomeShape::Missing { key } => Some(
            DroppedKeyView { key, failure: FetchFailure::NotFound, cause: Seq::empty() },
        ),
        FetchOutcomeShape::StoreError { key, cause } => Some(
            DroppedKeyView { key, failure: FetchFailure::StoreError, cause },
        ),
    }
}

/// The mapping from identifier to value that the found outcomes spell out.
pub open spec fn mapping_of(outcomes: Seq<FetchOutcomeShape>) -> Map<Seq<char>, Seq<char>>
    decreases outcomes.len(),
{
    if outcomes.len() == 0 {
        Map::empty()
    } else {
        let rest = mapping_of(outcomes.drop_last());
        match outcomes.last() {
            FetchOutcomeShape::Found { identifier, value, .. } => rest.insert(identifier, value),
            _ => rest,
        }
    }
}

/// The identifiers of the found outcomes, in the order of the outcomes.
pub open spec fn identifiers_of(outcomes: Seq<FetchOutcomeShape>) -> Seq<Seq<char>>
    decreases outcomes.len(),
{
    if outcomes.len() == 0 {
        Seq::empty()
    } else {
        let rest = identifiers_of(outcomes.drop_last());
        match found_identifier(outcomes.last()) {
            Some(id) => rest.push(id),
            None => rest,
        }
    }
}

/// The keys of the failed outcomes, in the order of the outcomes.
pub open spec fn dropped_of(outcomes: Seq<FetchOutcomeShape>) -> Seq<DroppedKeyView>
    decreases outcomes.len(),
{
    if outcomes.len() == 0 {
        Seq::empty()
    } else {
        let rest = dropped_of(outcomes.drop_last());
        match dropped_entry(outcomes.last()) {
            Some(d) => rest.push(d),
            None => rest,
        }
    }
}

/// Whether the outcome at `i` stops a hydration: it found an identifier that an
/// earlier outcome found already, or it failed under the strict policy.
pub open spec fn offends(policy: MissingKeyPolicy, outcomes: Seq<FetchOutcomeShape>, i: int) -> bool {
    match found_identifier(outcomes[i]) {
        Some(id) => exists|j: int| 0 <= j < i && #[trigger] found_identifier(outcomes[j]) == Some(id),
        None => policy == MissingKeyPolicy::Strict,
    }
}

/// Whether a hydration over `outcomes` succeeds under `policy`.
pub open spec fn acceptable(policy: MissingKeyPolicy, outcomes: Seq<FetchOutcomeShape>) -> bool {
    forall|i: int| 0 <= i < outcomes.len() ==> !offends(policy, outcomes, i)
}

/// The error that an offending outcome stops the hydration with.
pub open spec fn offence(outcome: FetchOutcomeShape) -> HydrationErrorView {
    match outcome {
        FetchOutcomeShape::Found { identifier, .. } => HydrationErrorView::DuplicateIdentifier {
            identifier,
        },
        FetchOutcomeShape::Missing { key } => HydrationErrorView::HydrationAborted {
            key,
            failure: FetchFailure::NotFound,
            cause: Seq::empty(),
        },
        FetchOutcomeShape::StoreError { key, cause } => HydrationErrorView::HydrationAborted {
            key,
            failure: FetchFailure::StoreError,
            cause,
        },
    }
}

/// The mapping a hydration hands to its consumer, with the keys it dropped.
pub struct HydrationResult {
    values: StringHashMap<String>,
    identifiers: Vec<String>,
    dropped: Vec<DroppedKey>,
}

impl View for HydrationResult {
    type V = Map<Seq<char>, Seq<char>>;

    closed spec fn view(&self) -> Map<Seq<char>, Seq<char>> {
        self.values@.map_values(|v: String| v@)
    }
}

impl HydrationResult {
    /// The identifiers of the mapping, in the order in which they were added.
    pub closed spec fn identifier_seq(&self) -> Seq<Seq<char>> {
        self.identifiers@.map_values(|s: String| s@)
    }

    /// The keys left out of the mapping, in the order in which they were dropped.
    pub closed spec fn dropped_seq(&self) -> Seq<DroppedKeyView> {
        self.dropped@.map_values(|d: DroppedKey| d@)
    }

    /// The identifier list names each identifier of the mapping exactly once.
    pub open spec fn wf(&self) -> bool {
        &&& self.identifier_seq().no_duplicates()
        &&& forall|id: Seq<char>| self@.contains_key(id) <==> self.identifier_seq().contains(id)
    }

    /// The empty result.
    pub fn new() -> (r: HydrationResult)
        ensures
            r@ == Map::<Seq<char>, Seq<char>>::empty(),
            r.identifier_seq() == Seq::<Seq<char>>::empty(),
            r.dropped_seq() == Seq::<DroppedKeyView>::empty(),
            r.wf(),
    {
        let r = HydrationResult {
            values: StringHashMap::new(),
            identifiers: Vec::new(),
            dropped: Vec::new(),
        };
        assert(r@ =~= Map::<Seq<char>, Seq<char>>::empty());
        assert(r.identifier_seq() =~= Seq::<Seq<char>>::empty());
        assert(r.dropped_seq() =~= Seq::<DroppedKeyView>::empty());
        r
    }

    /// The value held for `id`, if the mapping has one.
    pub fn get(&self, id: &str) -> (v: Option<&String>)
        ensures
            match v {
                Some(value) => self@.contains_key(id@) && value@ == self@[id@],
                None => !self@.contains_key(id@),
            },
    {
        self.values.get(id)
    }

    /// Whether the mapping holds a value for `id`.
    pub fn contains(&self, id: &str) -> (b: bool)
        ensures
            b == self@.contains_key(id@),
    {
        self.values.contains_key(id)
    }

    /// The number of identifiers in the mapping.
    pub fn len(&self) -> (n: usize)
        ensures
            n == self@.len(),
    {
        assert(self@.dom() =~= self.values@.dom());
        self.values.len()
    }

    /// Whether the mapping is empty.
    pub fn is_empty(&self) -> (b: bool)
        ensures
            b == (self@.len() == 0),
    {
        self.len() == 0
    }

    /// The identifiers of the mapping, in the order in which they were added.
    pub fn identifiers(&self) -> (ids: &Vec<String>)
        ensures
            ids@.len() == self.identifier_seq().len(),
            forall|i: int| 0 <= i < ids@.len() ==> (#[trigger] ids@[i])@ == self.identifier_seq()[i],
    {
        &self.identifiers
    }

    /// The keys left out of the mapping, in the order in which they were dropped.
    pub fn dropped(&self) -> (keys: &Vec<DroppedKey>)
        ensures
            keys@.len() == self.dropped_seq().len(),
            forall|i: int| 0 <= i < keys@.len() ==> (#[trigger] keys@[i])@ == self.dropped_seq()[i],
    {
        &self.dropped
    }

    /// The mapping as a list of pairs of identifier and value, in the order in
    /// which the identifiers were added.
    pub fn entries(&self) -> (pairs: Vec<(String, String)>)
        requires
            self.wf(),
        ensures
            pairs@.len() == self.identifier_seq().len(),
            forall|i: int|
                0 <= i < pairs@.len() ==> {
                    &&& (#[trigger] pairs@[i]).0@ == self.identifier_seq()[i]
                    &&& self@.contains_key(pairs@[i].0@)
                    &&& pairs@[i].1@ == self@[pairs@[i].0@]
                },
    {
        let mut pairs: Vec<(String, String)> = Vec::new();
        let mut i: usize = 0;
        while i < self.identifiers.len()
            invariant
                i <= self.identifiers@.len(),
                self.wf(),
                pairs@.len() == i,
                forall|j: int|
                    0 <= j < i ==> {
                        &&& (#[trigger] pairs@[j]).0@ == self.identifier_seq()[j]
                        &&& self@.contains_key(pairs@[j].0@)
                        &&& pairs@[j].1@ == self@[pairs@[j].0@]
                    },
            decreases self.identifiers@.len() - i,
        {
            let id = &self.identifiers[i];
            proof {
                assert(self.identifier_seq()[i as int] == id@);
                assert(self.identifier_seq().contains(id@));
            }
            match self.values.get(id.as_str()) {
                Some(value) => {
                    pairs.push((id.clone(), value.clone()));
                },
                None => {
                    assert(false);
                },
            }
            i += 1;
        }
        pairs
    }

    /// A well-formed result lists as many identifiers as its mapping holds.
    pub proof fn identifiers_count_the_mapping(&self)
        requires
            self.wf(),
        ensures
            self@.dom().finite(),
            self@.len() == self.identifier_seq().len(),
    {
        let ids = self.identifier_seq();
        ids.unique_seq_to_set();
        seq_to_set_is_finite(ids);
        assert(ids.to_set() =~= self@.dom());
    }

    /// Adds `id` with `value`; `id` must be new to the mapping.
    fn add(&mut self, id: String, value: String)
        requires
            old(self).wf(),
            !old(self)@.contains_key(id@),
        ensures
            final(self).wf(),
            final(self)@ == old(self)@.insert(id@, value@),
            final(self).identifier_seq() == old(self).identifier_seq().push(id@),
            final(self).dropped_seq() == old(self).dropped_seq(),
    {
        let listed = id.clone();
        self.values.insert(id, value);
        self.identifiers.push(listed);
        proof {
            assert(self@ =~= old(self)@.insert(id@, value@));
            assert(self.identifier_seq() =~= old(self).identifier_seq().push(id@));
            let before = old(self).identifier_seq();
            let after = self.identifier_seq();
            assert forall|x: Seq<char>| self@.contains_key(x) <==> after.contains(x) by {
                if after.contains(x) {
                    let k = choose|k: int| 0 <= k < after.len() && after[k] == x;
                    if k < before.len() {
                        assert(before[k] == x);
                        assert(before.contains(x));
                    }
                }
                if self@.contains_key(x) {
                    if x == id@ {
                        assert(after[before.len() as int] == x);
                    } else {
                        assert(before.contains(x));
                        let k = choose|k: int| 0 <= k < before.len() && before[k] == x;
                        assert(after[k] == x);
                    }
                }
            }
            assert forall|a: int, b: int|
                0 <= a < after.len() && 0 <= b < after.len() && a != b implies after[a]
                != after[b] by {
                if a < before.len() && b < before.len() {
                    assert(before[a] != before[b]);
                } else if a < before.len() {
                    assert(before.contains(before[a]));
                } else if b < before.len() {
                    assert(before.contains(before[b]));
                }
            }
        }
    }

    /// Records that `key` was left out of the mapping.
    fn drop_key(&mut self, key: String, failure: FetchFailure, cause: String)
        requires
            old(self).wf(),
        ensures
            final(self).wf(),
            final(self)@ == old(self)@,
            final(self).identifier_seq() == old(self).identifier_seq(),
            final(self).dropped_seq() == old(self).dropped_seq().push(
                DroppedKeyView { key: key@, failure, cause: cause@ },
            ),
    {
        self.dropped.push(DroppedKey { key, failure, cause });
        proof {
            assert(self.dropped_seq() =~= old(self).dropped_seq().push(
                DroppedKeyView { key: key@, failure, cause: cause@ },
            ));
        }
    }
}

/// An identifier is in the mapping of some outcomes exactly when one of them found it.
pub proof fn mapping_domain(outcomes: Seq<FetchOutcomeShape>, id: Seq<char>)
    ensures
        mapping_of(outcomes).contains_key(id) <==> exists|j: int|
            0 <= j < outcomes.len() && #[trigger] found_identifier(outcomes[j]) == Some(id),
    decreases outcomes.len(),
{
    if outcomes.len() > 0 {
        let front = outcomes.drop_last();
        let last = outcomes.len() - 1;
        mapping_domain(front, id);
        if mapping_of(outcomes).contains_key(id) {
            if mapping_of(front).contains_key(id) {
                let j = choose|j: int|
                    0 <= j < front.len() && #[trigger] found_identifier(front[j]) == Some(id);
                assert(found_identifier(outcomes[j]) == Some(id));
            } else {
                assert(found_identifier(outcomes[last]) == Some(id));
            }
        }
        if exists|j: int|
            0 <= j < outcomes.len() && #[trigger] found_identifier(outcomes[j]) == Some(id) {
            let j = choose|j: int|
                0 <= j < outcomes.len() && #[trigger] found_identifier(outcomes[j]) == Some(id);
            if j < front.len() {
                assert(found_identifier(front[j]) == Some(id));
            } else {
                assert(outcomes.last() == outcomes[j]);
            }
        }
    }
}

/// Outcomes that are accepted stay accepted when the last one is left out.
pub proof fn acceptable_without_last(policy: MissingKeyPolicy, outcomes: Seq<FetchOutcomeShape>)
    requires
        acceptable(policy, outcomes),
        outcomes.len() > 0,
    ensures
        acceptable(policy, outcomes.drop_last()),
{
    let front = outcomes.drop_last();
    assert forall|i: int| 0 <= i < front.len() implies !offends(policy, front, i) by {
        assert(!offends(policy, outcomes, i));
        if offends(policy, front, i) {
            let k = choose|k: int|
                0 <= k < i && #[trigger] found_identifier(front[k]) == found_identifier(front[i]);
            assert(found_identifier(outcomes[k]) == found_identifier(outcomes[i]));
        }
    }
}

/// Every accepted outcome is either in the mapping or among the dropped keys:
/// the mapping holds one identifier for each outcome that found a value.
pub proof fn every_outcome_is_accounted_for(
    policy: MissingKeyPolicy,
    outcomes: Seq<FetchOutcomeShape>,
)
    requires
        acceptable(policy, outcomes),
    ensures
        mapping_of(outcomes).dom().finite(),
        mapping_of(outcomes).len() == identifiers_of(outcomes).len(),
        identifiers_of(outcomes).len() + dropped_of(outcomes).len() == outcomes.len(),
        policy == MissingKeyPolicy::Strict ==> dropped_of(outcomes).len() == 0,
    decreases outcomes.len(),
{
    if outcomes.len() > 0 {
        let front = outcomes.drop_last();
        let last = outcomes.len() - 1;
        acceptable_without_last(policy, outcomes);
        every_outcome_is_accounted_for(policy, front);
        assert(!offends(policy, outcomes, last));
        match found_identifier(outcomes[last]) {
            Some(id) => {
                mapping_domain(front, id);
                if mapping_of(front).contains_key(id) {
                    let j = choose|j: int|
                        0 <= j < front.len() && #[trigger] found_identifier(front[j]) == Some(id);
                    assert(found_identifier(outcomes[j]) == Some(id));
                }
                assert(mapping_of(outcomes).dom() =~= mapping_of(front).dom().insert(id));
            },
            None => {},
        }
    }
}

/// Folds the outcomes of one hydration into its result.
///
/// An outcome that found a value adds its identifier to the mapping. A failed
/// outcome is dropped and listed under the lenient policy, and stops the
/// hydration under the strict one. An identifier found twice stops it under
/// either policy. The error is that of the first outcome that stops it.
pub fn fold(policy: MissingKeyPolicy, outcomes: Vec<FetchOutcome>) -> (r: Result<
    HydrationResult,
    HydrationError,
>)
    ensures
        r is Ok <==> acceptable(policy, shapes_of(outcomes@)),
        match r {
            Ok(result) => {
                &&& result.wf()
                &&& result@ == mapping_of(shapes_of(outcomes@))
                &&& result.identifier_seq() == identifiers_of(shapes_of(outcomes@))
                &&& result.dropped_seq() == dropped_of(shapes_of(outcomes@))
            },
            Err(e) => exists|i: int|
                {
                    &&& 0 <= i < outcomes@.len()
                    &&& offends(policy, shapes_of(outcomes@), i)
                    &&& forall|j: int| 0 <= j < i ==> !offends(policy, shapes_of(outcomes@), j)
                    &&& e@ == offence(#[trigger] shapes_of(outcomes@)[i])
                },
        },
{
    let ghost shapes = shapes_of(outcomes@);
    let mut result = HydrationResult::new();
    let mut i: usize = 0;
    assert(shapes.take(0) =~= Seq::<FetchOutcomeShape>::empty());
    while i < outcomes.len()
        invariant
            i <= outcomes@.len(),
            shapes == shapes_of(outcomes@),
            result.wf(),
            result@ == mapping_of(shapes.take(i as int)),
            result.identifier_seq() == identifiers_of(shapes.take(i as int)),
            result.dropped_seq() == dropped_of(shapes.take(i as int)),
            forall|j: int| 0 <= j < i ==> !offends(policy, shapes, j),
        decreases outcomes@.len() - i,
    {
        proof {
            assert(shapes.take(i + 1).drop_last() =~= shapes.take(i as int));
            assert(shapes.take(i + 1).last() == shapes[i as int]);
            assert(shapes[i as int] == outcomes@[i as int]@);
        }
        match &outcomes[i] {
            FetchOutcome::Found { identifier, value } => {
                if result.contains(identifier.text.as_str()) {
                    proof {
                        mapping_domain(shapes.take(i as int), identifier@);
                        let j = choose|j: int|
                            0 <= j < i && #[trigger] found_identifier(shapes.take(i as int)[j])
                                == Some(identifier@);
                        assert(found_identifier(shapes[j]) == Some(identifier@));
                        assert(offends(policy, shapes, i as int));
                    }
                    return Err(
                        HydrationError::DuplicateIdentifier { identifier: identifier.text.clone() },
                    );
                }
                proof {
                    mapping_domain(shapes.take(i as int), identifier@);
                    if offends(policy, shapes, i as int) {
                        let j = choose|j: int|
                            0 <= j < i && #[trigger] found_identifier(shapes[j]) == Some(identifier@);
                        assert(found_identifier(shapes.take(i as int)[j]) == Some(identifier@));
                    }
                }
                result.add(identifier.text.clone(), value.clone());
            },
            FetchOutcome::Missing { key } => {
                match policy {
                    MissingKeyPolicy::Strict => {
                        assert(offends(policy, shapes, i as int));
                        return Err(
                            HydrationError::HydrationAborted {
                                key: key.clone(),
                                failure: FetchFailure::NotFound,
                                cause: String::new(),
                            },
                        );
                    },
                    MissingKeyPolicy::Lenient => {
                        result.drop_key(key.clone(), FetchFailure::NotFound, String::new());
                    },
                }
            },
            FetchOutcome::StoreError { key, cause } => {
                match policy {
                    MissingKeyPolicy::Strict => {
                        assert(offends(policy, shapes, i as int));
                        return Err(
                            HydrationError::HydrationAborted {
                                key: key.clone(),
                                failure: FetchFailure::StoreError,
                                cause: cause.clone(),
                            },
                        );
                    },
                    MissingKeyPolicy::Lenient => {
                        result.drop_key(key.clone(), FetchFailure::StoreError, cause.clone());
                    },
                }
            },
        }
        i += 1;
    }
    assert(shapes.take(i as int) =~= shapes);
    Ok(result)
}

} // verus!
