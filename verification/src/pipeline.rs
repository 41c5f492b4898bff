//! The hydration of one entity type from the keys of a scan and the store's
//! answers to them, taken in the order of the scan.

use vstd::prelude::*;
use crate::codec::{parse, parse_spec};
use crate::entity::{EntityType, MissingKeyPolicy};
use crate::error::{HydrationError, HydrationErrorView};
use crate::hydrate::{
    acceptable, dropped_of, fold, identifiers_of, mapping_of, offence, offends, HydrationResult,
};
use crate::outcome::{outcome_spec, shapes_of, FetchOutcome, FetchOutcomeShape, StoreReply};

verus! {

/// One scanned key with the store's answer to its `get`.
#[derive(Clone, Debug, PartialEq, Eq)]
pub struct Answer {
    pub key: String,
    pub reply: StoreReply,
}

/// Whether every key of `answers` decodes for `entity`.
pub open spec fn all_keys_decode(entity: EntityType, answers: Seq<Answer>) -> bool {
    forall|i: int| 0 <= i < answers.len() ==> parse_spec(entity, (#[trigger] answers[i]).key@).is_some()
}

/// The outcomes that `answers` amount to, one per key, in the order of the keys.
pub open spec fn outcomes_in_order(entity: EntityType, answers: Seq<Answer>) -> Seq<
    FetchOutcomeShape,
> {
    Seq::new(
        answers.len(),
        |i: int|
            outcome_spec(
                entity,
                parse_spec(entity, answers[i].key@).unwrap(),
                answers[i].key@,
                answers[i].reply,
            ),
    )
}

/// Hydrates `entity` under `policy` from the scanned keys and their answers.
///
/// Every key is decoded before any answer is looked at: the first malformed
/// key fails the hydration. Otherwise each answer becomes the outcome of its
/// key and the outcomes are folded in the order of the keys.
pub fn hydrate(entity: EntityType, policy: MissingKeyPolicy, answers: &Vec<Answer>) -> (r: Result<
    HydrationResult,
    HydrationError,
>)
    ensures
        r is Ok <==> all_keys_decode(entity, answers@) && acceptable(
            policy,
            outcomes_in_order(entity, answers@),
        ),
        match r {
            Ok(result) => {
                &&& result.wf()
                &&& result@ == mapping_of(outcomes_in_order(entity, answers@))
                &&& result.identifier_seq() == identifiers_of(outcomes_in_order(entity, answers@))
                &&& result.dropped_seq() == dropped_of(outcomes_in_order(entity, answers@))
            },
            Err(e) => if all_keys_decode(entity, answers@) {
                exists|i: int|
                    {
                        &&& 0 <= i < answers@.len()
                        &&& offends(policy, outcomes_in_order(entity, answers@), i)
                        &&& forall|j: int|
                            0 <= j < i ==> !offends(policy, outcomes_in_order(entity, answers@), j)
                        &&& e@ == offence(#[trigger] outcomes_in_order(entity, answers@)[i])
                    }
            } else {
                exists|i: int|
                    {
                        &&& 0 <= i < answers@.len()
                        &&& parse_spec(entity, (#[trigger] answers@[i]).key@).is_none()
                        &&& forall|j: int|
                            0 <= j < i ==> parse_spec(
                                entity,
                                (#[trigger] answers@[j]).key@,
                            ).is_some()
                        &&& e@ == HydrationErrorView::MalformedKey { key: answers@[i].key@ }
                    }
            },
        },
{
    let mut outcomes: Vec<FetchOutcome> = Vec::new();
    let mut i: usize = 0;
    while i < answers.len()
        invariant
            i <= answers@.len(),
            outcomes@.len() == i,
            forall|j: int| 0 <= j < i ==> parse_spec(entity, (#[trigger] answers@[j]).key@).is_some(),
            forall|j: int|
                0 <= j < i ==> (#[trigger] outcomes@[j])@ == outcome_spec(
                    entity,
                    parse_spec(entity, answers@[j].key@).unwrap(),
                    answers@[j].key@,
                    answers@[j].reply,
                ),
        decreases answers@.len() - i,
    {
        let answer = &answers[i];
        match parse(entity, answer.key.as_str()) {
            Ok(identifier) => {
                outcomes.push(FetchOutcome::record(&identifier, answer.key.as_str(), &answer.reply));
            },
            Err(e) => {
                assert(parse_spec(entity, answers@[i as int].key@).is_none());
                return Err(e);
            },
        }
        i += 1;
    }
    assert(shapes_of(outcomes@) =~= outcomes_in_order(entity, answers@));
    fold(policy, outcomes)
}

} // verus!
