//! The scatter-gather fetcher: which key to fetch next, and what came back.
//!
//! The fetcher decides and records; it performs no I/O. Its driver asks it for
//! the next action, issues the `get` it is told to issue, and reports each
//! reply as it arrives, in whatever order the replies complete. The fetcher
//! keeps the number of requests in flight within its concurrency bound,
//! attempts every key, and turns every reply, failures included, into an
//! outcome.

use vstd::prelude::*;
use crate::codec::{parse, parse_spec, Identifier};
use crate::counting::{
    distinct_below, distinct_below_is_short, distinct_below_with_gap, is_permutation,
    permutation_is_onto,
};
use crate::entity::EntityType;
use crate::error::{HydrationError, HydrationErrorView};
use crate::outcome::{
    concerns, outcome_spec, shapes_of, FetchOutcome, FetchOutcomeShape, StoreReply,
};

verus! {

/// What the driver of a fetch does next.
#[derive(Clone, Copy, Debug, PartialEq, Eq, Structural)]
pub enum Action {
    /// Issue the `get` for the key at `index`.
    Issue { index: usize },
    /// The bound is reached or every key is issued: await a reply.
    Wait,
    /// Every key has its outcome.
    Finished,
}

/// The bound that a fetch works under when it is asked for `concurrency`: a
/// fetch that may issue nothing would never end, so there is always room for
/// one request.
pub open spec fn effective_bound(concurrency: usize) -> int {
    if concurrency == 0 {
        1
    } else {
        concurrency as int
    }
}

/// The texts of some keys.
pub open spec fn key_views(keys: Seq<String>) -> Seq<Seq<char>> {
    keys.map_values(|k: String| k@)
}

/// Whether each outcome is an outcome of the key that `origins` attributes it to.
pub open spec fn attributed(
    entity: EntityType,
    keys: Seq<Seq<char>>,
    outcomes: Seq<FetchOutcomeShape>,
    origins: Seq<int>,
) -> bool {
    &&& origins.len() == outcomes.len()
    &&& forall|j: int|
        0 <= j < outcomes.len() ==> 0 <= #[trigger] origins[j] < keys.len() && concerns(
            entity,
            outcomes[j],
            keys[origins[j]],
        )
}

/// The state of one bounded scatter-gather fetch over a scanned key set.
pub struct ScatterGather {
    entity: EntityType,
    keys: Vec<String>,
    identifiers: Vec<Identifier>,
    bound: usize,
    issued: usize,
    in_flight: usize,
    answered: Vec<bool>,
    outcomes: Vec<FetchOutcome>,
    origin: Vec<usize>,
}

impl ScatterGather {
    /// The entity type whose keys are fetched.
    pub closed spec fn entity_spec(&self) -> EntityType {
        self.entity
    }

    /// The scanned keys, in the order of the scan.
    pub closed spec fn keys(&self) -> Seq<Seq<char>> {
        key_views(self.keys@)
    }

    /// The most requests that may be in flight at once.
    pub closed spec fn bound_spec(&self) -> int {
        self.bound as int
    }

    /// How many keys have been issued: exactly the keys before this index.
    pub closed spec fn issued_spec(&self) -> int {
        self.issued as int
    }

    /// The outcomes gathered so far, in the order of completion.
    pub closed spec fn outcomes(&self) -> Seq<FetchOutcomeShape> {
        shapes_of(self.outcomes@)
    }

    /// For each gathered outcome, the index of the key it is the outcome of.
    pub closed spec fn origins(&self) -> Seq<int> {
        self.origin@.map_values(|i: usize| i as int)
    }

    /// How many requests are issued and not yet answered.
    pub open spec fn in_flight_spec(&self) -> int {
        self.issued_spec() - self.outcomes().len()
    }

    /// The action that the fetcher asks for in this state.
    pub open spec fn next_action(&self) -> Action {
        if self.issued_spec() < self.keys().len() && self.in_flight_spec() < self.bound_spec() {
            Action::Issue { index: self.issued_spec() as usize }
        } else if self.in_flight_spec() > 0 {
            Action::Wait
        } else {
            Action::Finished
        }
    }

    /// Whether a reply for the key at `index` is awaited.
    pub open spec fn awaits(&self, index: int) -> bool {
        0 <= index < self.issued_spec() && !self.origins().contains(index)
    }

    /// The state is consistent.
    pub closed spec fn wf(&self) -> bool {
        &&& self.identifiers@.len() == self.keys@.len()
        &&& self.answered@.len() == self.keys@.len()
        &&& forall|i: int|
            0 <= i < self.keys@.len() ==> parse_spec(self.entity, (#[trigger] self.keys@[i])@)
                == Some(self.identifiers@[i]@) && self.identifiers@[i].entity == self.entity
        &&& self.bound >= 1
        &&& self.issued <= self.keys@.len()
        &&& self.origin@.len() == self.outcomes@.len()
        &&& self.in_flight + self.outcomes@.len() == self.issued
        &&& self.in_flight <= self.bound
        &&& distinct_below(self.origins(), self.issued as int)
        &&& forall|i: int|
            0 <= i < self.answered@.len() ==> (#[trigger] self.answered@[i]
                <==> self.origins().contains(i))
        &&& forall|j: int|
            0 <= j < self.outcomes@.len() ==> concerns(
                self.entity,
                (#[trigger] self.outcomes@[j])@,
                self.keys@[self.origin@[j] as int]@,
            )
    }

    /// What holds of every consistent state: the requests in flight are within
    /// the bound, only issued keys have outcomes, no key has two, and each
    /// outcome is an outcome of the key it is attributed to.
    pub proof fn consistent_state_is_bounded(&self)
        requires
            self.wf(),
        ensures
            self.bound_spec() >= 1,
            0 <= self.in_flight_spec() <= self.bound_spec(),
            0 <= self.issued_spec() <= self.keys().len(),
            self.origins().len() == self.outcomes().len(),
            distinct_below(self.origins(), self.issued_spec()),
            forall|i: int|
                0 <= i < self.keys().len() ==> parse_spec(
                    self.entity_spec(),
                    #[trigger] self.keys()[i],
                ).is_some(),
            attributed(self.entity_spec(), self.keys(), self.outcomes(), self.origins()),
    {
        assert forall|i: int| 0 <= i < self.keys().len() implies parse_spec(
            self.entity_spec(),
            #[trigger] self.keys()[i],
        ).is_some() by {
            assert(self.keys()[i] == self.keys@[i]@);
        }
        assert forall|j: int| 0 <= j < self.outcomes().len() implies 0 <= #[trigger] self.origins()[j]
            < self.keys().len() && concerns(
            self.entity_spec(),
            self.outcomes()[j],
            self.keys()[self.origins()[j]],
        ) by {
            assert(0 <= self.origins()[j] < self.issued);
            assert(self.outcomes()[j] == self.outcomes@[j]@);
        }
    }

    /// Once the fetcher reports that it has finished, every key has exactly one
    /// outcome: the origins are a permutation of the key indices.
    pub proof fn finished_is_complete(&self)
        requires
            self.wf(),
            self.next_action() == Action::Finished,
        ensures
            self.outcomes().len() == self.keys().len(),
            self.issued_spec() == self.keys().len(),
            is_permutation(self.origins()),
            forall|i: int| 0 <= i < self.keys().len() ==> self.origins().contains(i),
    {
        assert forall|i: int| 0 <= i < self.keys().len() implies self.origins().contains(i) by {
            permutation_is_onto(self.origins(), i);
        }
    }

    /// Starts a fetch of `keys` for `entity` with at most `concurrency`
    /// requests in flight, and at most one where `concurrency` is zero. Every
    /// key is decoded first; the first key that is malformed fails the whole
    /// fetch before any request is issued.
    pub fn new(entity: EntityType, keys: Vec<String>, concurrency: usize) -> (r: Result<
        ScatterGather,
        HydrationError,
    >)
        ensures
            r is Ok <==> forall|i: int|
                0 <= i < keys@.len() ==> parse_spec(entity, (#[trigger] keys@[i])@).is_some(),
            match r {
                Ok(fetcher) => {
                    &&& fetcher.wf()
                    &&& fetcher.entity_spec() == entity
                    &&& fetcher.keys() == key_views(keys@)
                    &&& fetcher.bound_spec() == effective_bound(concurrency)
                    &&& fetcher.issued_spec() == 0
                    &&& fetcher.outcomes().len() == 0
                    &&& fetcher.origins().len() == 0
                },
                Err(e) => exists|i: int|
                    {
                        &&& 0 <= i < keys@.len()
                        &&& parse_spec(entity, (#[trigger] keys@[i])@).is_none()
                        &&& forall|j: int|
                            0 <= j < i ==> parse_spec(entity, (#[trigger] keys@[j])@).is_some()
                        &&& e@ == HydrationErrorView::MalformedKey { key: keys@[i]@ }
                    },
            },
    {
        let mut identifiers: Vec<Identifier> = Vec::new();
        let mut answered: Vec<bool> = Vec::new();
        let mut i: usize = 0;
        while i < keys.len()
            invariant
                i <= keys@.len(),
                identifiers@.len() == i,
                answered@.len() == i,
                forall|j: int|
                    0 <= j < i ==> parse_spec(entity, (#[trigger] keys@[j])@) == Some(
                        identifiers@[j]@,
                    ) && identifiers@[j].entity == entity,
                forall|j: int| 0 <= j < i ==> !(#[trigger] answered@[j]),
            decreases keys@.len() - i,
        {
            match parse(entity, keys[i].as_str()) {
                Ok(id) => {
                    identifiers.push(id);
                    answered.push(false);
                },
                Err(e) => {
                    assert(parse_spec(entity, keys@[i as int]@).is_none());
                    return Err(e);
                },
            }
            i += 1;
        }
        let fetcher = ScatterGather {
            entity,
            keys,
            identifiers,
            bound: if concurrency == 0 {
                1
            } else {
                concurrency
            },
            issued: 0,
            in_flight: 0,
            answered,
            outcomes: Vec::new(),
            origin: Vec::new(),
        };
        assert(fetcher.origins() =~= Seq::<int>::empty());
        Ok(fetcher)
    }

    /// The number of scanned keys.
    pub fn key_count(&self) -> (n: usize)
        ensures
            n == self.keys().len(),
    {
        self.keys.len()
    }

    /// The key at `index`.
    pub fn key(&self, index: usize) -> (key: &str)
        requires
            index < self.keys().len(),
        ensures
            key@ == self.keys()[index as int],
    {
        self.keys[index].as_str()
    }

    /// The number of requests issued and not yet answered.
    pub fn in_flight(&self) -> (n: usize)
        requires
            self.wf(),
        ensures
            n == self.in_flight_spec(),
    {
        self.in_flight
    }

    /// Whether every key has its outcome.
    pub fn is_finished(&self) -> (done: bool)
        requires
            self.wf(),
        ensures
            done == (self.next_action() == Action::Finished),
            done == (self.outcomes().len() == self.keys().len()),
    {
        proof {
            distinct_below_is_short(self.origins(), self.issued as int);
        }
        self.issued == self.keys.len() && self.in_flight == 0
    }

    /// Decides the next action and, for `Issue`, counts the request as in flight.
    pub fn step(&mut self) -> (action: Action)
        requires
            old(self).wf(),
        ensures
            final(self).wf(),
            action == old(self).next_action(),
            final(self).entity_spec() == old(self).entity_spec(),
            final(self).keys() == old(self).keys(),
            final(self).bound_spec() == old(self).bound_spec(),
            final(self).outcomes() == old(self).outcomes(),
            final(self).origins() == old(self).origins(),
            final(self).issued_spec() == old(self).issued_spec() + (if action is Issue {
                1int
            } else {
                0int
            }),
    {
        if self.issued < self.keys.len() && self.in_flight < self.bound {
            let index = self.issued;
            self.issued = index + 1;
            self.in_flight = self.in_flight + 1;
            Action::Issue { index }
        } else if self.in_flight > 0 {
            Action::Wait
        } else {
            Action::Finished
        }
    }

    /// Records the store's reply for the key at `index`.
    ///
    /// The reply is accepted when a reply for that key is awaited: the key was
    /// issued and has no outcome yet. An accepted reply becomes the key's
    /// outcome, whatever it is, and frees its place under the bound. A reply
    /// that is not awaited changes nothing.
    pub fn complete(&mut self, index: usize, reply: StoreReply) -> (accepted: bool)
        requires
            old(self).wf(),
        ensures
            final(self).wf(),
            accepted == old(self).awaits(index as int),
            final(self).entity_spec() == old(self).entity_spec(),
            final(self).keys() == old(self).keys(),
            final(self).bound_spec() == old(self).bound_spec(),
            final(self).issued_spec() == old(self).issued_spec(),
            accepted ==> {
                &&& final(self).outcomes().len() == old(self).outcomes().len() + 1
                &&& final(self).outcomes().drop_last() == old(self).outcomes()
                &&& final(self).outcomes().last() == outcome_spec(
                    old(self).entity_spec(),
                    parse_spec(old(self).entity_spec(), old(self).keys()[index as int]).unwrap(),
                    old(self).keys()[index as int],
                    reply,
                )
                &&& final(self).origins() == old(self).origins().push(index as int)
            },
            !accepted ==> {
                &&& final(self).outcomes() == old(self).outcomes()
                &&& final(self).origins() == old(self).origins()
            },
    {
        if index >= self.issued || self.answered[index] {
            return false;
        }
        proof {
            distinct_below_with_gap(self.origins(), self.issued as int, index as int);
        }
        let outcome = FetchOutcome::record(
            &self.identifiers[index],
            self.keys[index].as_str(),
            &reply,
        );
        self.answered.set(index, true);
        self.outcomes.push(outcome);
        self.origin.push(index);
        self.in_flight = self.in_flight - 1;
        proof {
            let before = old(self).origins();
            let after = self.origins();
            assert(after =~= before.push(index as int));
            assert(self.outcomes().drop_last() =~= old(self).outcomes());
            assert(old(self).keys()[index as int] == self.keys@[index as int]@);
            assert forall|i: int| 0 <= i < self.answered@.len() implies (#[trigger] self.answered@[i]
                <==> after.contains(i)) by {
                if i == index {
                    assert(after[before.len() as int] == i);
                } else {
                    assert(self.answered@[i] == old(self).answered@[i]);
                    if before.contains(i) {
                        let j = choose|j: int| 0 <= j < before.len() && before[j] == i;
                        assert(after[j] == i);
                    }
                    if after.contains(i) {
                        let j = choose|j: int| 0 <= j < after.len() && after[j] == i;
                        assert(before[j] == i);
                    }
                }
            }
            assert forall|a: int, b: int|
                0 <= a < after.len() && 0 <= b < after.len() && a != b implies after[a]
                != after[b] by {
                if a < before.len() && b < before.len() {
                    assert(before[a] != before[b]);
                } else if a < before.len() {
                    assert(before.contains(before[a]));
                } else if b < before.len() {
                    assert(before.contains(before[b]));
                }
            }
            assert forall|j: int| 0 <= j < self.outcomes@.len() implies concerns(
                self.entity,
                (#[trigger] self.outcomes@[j])@,
                self.keys@[self.origin@[j] as int]@,
            ) by {
                if j < old(self).outcomes@.len() {
                    assert(self.outcomes@[j] == old(self).outcomes@[j]);
                    assert(self.origin@[j] == old(self).origin@[j]);
                }
            }
        }
        true
    }

    /// Hands over the outcomes gathered so far, in the order of completion.
    pub fn into_outcomes(self) -> (outcomes: Vec<FetchOutcome>)
        ensures
            shapes_of(outcomes@) == self.outcomes(),
    {
        self.outcomes
    }
}

} // verus!
