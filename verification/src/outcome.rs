//! What the store answered for one key, and the outcome recorded for it.

use vstd::prelude::*;
use crate::codec::{parse_spec, Identifier};
use crate::entity::EntityType;
use crate::error::FetchFailure;

verus! {

/// The store's answer to one `get`.
#[derive(Clone, Debug, PartialEq, Eq)]
pub enum StoreReply {
    /// The value held under the key.
    Value(String),
    /// The store holds nothing under the key.
    NotFound,
    /// The store failed; the text says how.
    Failed(String),
}

/// The outcome of fetching one key.
#[derive(Clone, Debug, PartialEq, Eq)]
pub enum FetchOutcome {
    /// The key's value was fetched; the key is given by its identifier.
    Found { identifier: Identifier, value: String },
    /// The store holds nothing under the key.
    Missing { key: String },
    /// The store failed while fetching the key.
    StoreError { key: String, cause: String },
}

/// The identifier an outcome found a value for, if it found one.
pub open spec fn found_identifier(outcome: FetchOutcomeShape) -> Option<Seq<char>> {
    match outcome {
        FetchOutcomeShape::Found { identifier, .. } => Some(identifier),
        _ => None,
    }
}

/// The value an outcome found, if it found one.
pub open spec fn found_value(outcome: FetchOutcomeShape) -> Option<Seq<char>> {
    match outcome {
        FetchOutcomeShape::Found { value, .. } => Some(value),
        _ => None,
    }
}

/// Whether `outcome` is an outcome of fetching `key` for `entity`.
pub open spec fn concerns(entity: EntityType, outcome: FetchOutcomeShape, key: Seq<char>) -> bool {
    match outcome {
        FetchOutcomeShape::Found { identifier, entity: e, .. } => {
            e == entity && parse_spec(entity, key) == Some(identifier)
        },
        FetchOutcomeShape::Missing { key: k } => k == key,
        FetchOutcomeShape::StoreError { key: k, .. } => k == key,
    }
}

/// The mathematical contents of some outcomes, in their order.
pub open spec fn shapes_of(outcomes: Seq<FetchOutcome>) -> Seq<FetchOutcomeShape> {
    outcomes.map_values(|o: FetchOutcome| o@)
}

/// The outcome that `reply` amounts to for the key `key` of the record
/// `identifier` of `entity`.
pub open spec fn outcome_spec(
    entity: EntityType,
    identifier: Seq<char>,
    key: Seq<char>,
    reply: StoreReply,
) -> FetchOutcomeShape {
    match reply {
        StoreReply::Value(value) => FetchOutcomeShape::Found { identifier, entity, value: value@ },
        StoreReply::NotFound => FetchOutcomeShape::Missing { key },
        StoreReply::Failed(cause) => FetchOutcomeShape::StoreError { key, cause: cause@ },
    }
}

/// The mathematical content of a [`FetchOutcome`].
pub enum FetchOutcomeShape {
    Found { identifier: Seq<char>, entity: EntityType, value: Seq<char> },
    Missing { key: Seq<char> },
    StoreError { key: Seq<char>, cause: Seq<char> },
}

impl View for FetchOutcome {
    type V = FetchOutcomeShape;

    open spec fn view(&self) -> FetchOutcomeShape {
        match *self {
            FetchOutcome::Found { identifier, value } => FetchOutcomeShape::Found {
                identifier: identifier@,
                entity: identifier.entity,
                value: value@,
            },
            FetchOutcome::Missing { key } => FetchOutcomeShape::Missing { key: key@ },
            FetchOutcome::StoreError { key, cause } => FetchOutcomeShape::StoreError {
                key: key@,
                cause: cause@,
            },
        }
    }
}

impl FetchOutcome {
    /// Records the store's reply for one key as an outcome. No reply is an
    /// error at this stage: a failure becomes an outcome like any other.
    pub fn record(identifier: &Identifier, key: &str, reply: &StoreReply) -> (outcome: FetchOutcome)
        ensures
            outcome@ == outcome_spec(identifier.entity, identifier@, key@, *reply),
    {
        match reply {
            StoreReply::Value(value) => FetchOutcome::Found {
                identifier: Identifier {
                    entity: identifier.entity,
                    text: identifier.text.clone(),
                },
                value: value.clone(),
            },
            StoreReply::NotFound => FetchOutcome::Missing { key: key.to_owned() },
            StoreReply::Failed(cause) => FetchOutcome::StoreError {
                key: key.to_owned(),
                cause: cause.clone(),
            },
        }
    }

    /// Whether the key's value was fetched.
    pub fn is_found(&self) -> (found: bool)
        ensures
            found == found_identifier(self@).is_some(),
    {
        match self {
            FetchOutcome::Found { .. } => true,
            _ => false,
        }
    }

    /// How the fetch failed, if it did.
    pub fn failure(&self) -> (f: Option<FetchFailure>)
        ensures
            f == match *self {
                FetchOutcome::Found { .. } => None,
                FetchOutcome::Missing { .. } => Some(FetchFailure::NotFound),
                FetchOutcome::StoreError { .. } => Some(FetchFailure::StoreError),
            },
    {
        match self {
            FetchOutcome::Found { .. } => None,
            FetchOutcome::Missing { .. } => Some(FetchFailure::NotFound),
            FetchOutcome::StoreError { .. } => Some(FetchFailure::StoreError),
        }
    }
}

} // verus!
