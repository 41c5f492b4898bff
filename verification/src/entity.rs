//! Entity types, their key prefixes and their missing-key policies.

use vstd::prelude::*;
use vstd::string::*;

verus! {

/// The kinds of record that are hydrated, each under its own key prefix.
#[derive(Clone, Copy, Debug, PartialEq, Eq, Structural)]
pub enum EntityType {
    Currency,
    Instrument,
    Synthetic,
    Account,
    Order,
}

/// What a hydration does with a key whose value could not be fetched.
#[derive(Clone, Copy, Debug, PartialEq, Eq, Structural)]
pub enum MissingKeyPolicy {
    /// The key is dropped and reported; the hydration goes on.
    Lenient,
    /// The whole hydration fails on the first such key.
    Strict,
}

/// The fixed leading segment of every key of `entity`.
pub open spec fn prefix_text(entity: EntityType) -> Seq<char> {
    match entity {
        EntityType::Currency => "currencies"@,
        EntityType::Instrument => "instruments"@,
        EntityType::Synthetic => "synthetics"@,
        EntityType::Account => "accounts"@,
        EntityType::Order => "orders"@,
    }
}

/// The policy an entity type is hydrated under unless the caller chooses otherwise.
pub open spec fn default_policy(entity: EntityType) -> MissingKeyPolicy {
    match entity {
        EntityType::Synthetic => MissingKeyPolicy::Strict,
        _ => MissingKeyPolicy::Lenient,
    }
}

/// A prefix is short, made of lower-case ASCII letters, and so holds no delimiter.
pub proof fn prefix_is_lowercase(entity: EntityType)
    ensures
        0 < prefix_text(entity).len() <= 11,
        forall|i: int|
            0 <= i < prefix_text(entity).len() ==> 'a' <= #[trigger] prefix_text(entity)[i] <= 'z',
{
    reveal_strlit("currencies");
    reveal_strlit("instruments");
    reveal_strlit("synthetics");
    reveal_strlit("accounts");
    reveal_strlit("orders");
}

/// No prefix is the beginning of another, so a key belongs to at most one entity type.
pub proof fn prefixes_are_distinct(a: EntityType, b: EntityType)
    requires
        a != b,
    ensures
        prefix_text(a)[0] != prefix_text(b)[0] || prefix_text(a)[1] != prefix_text(b)[1],
{
    reveal_strlit("currencies");
    reveal_strlit("instruments");
    reveal_strlit("synthetics");
    reveal_strlit("accounts");
    reveal_strlit("orders");
}

impl EntityType {
    /// The key prefix of this entity type.
    pub fn prefix(self) -> (p: &'static str)
        ensures
            p@ == prefix_text(self),
            p.is_ascii(),
    {
        proof {
            prefix_is_lowercase(self);
        }
        match self {
            EntityType::Currency => "currencies",
            EntityType::Instrument => "instruments",
            EntityType::Synthetic => "synthetics",
            EntityType::Account => "accounts",
            EntityType::Order => "orders",
        }
    }

    /// The missing-key policy this entity type is hydrated under by default.
    pub fn policy(self) -> (p: MissingKeyPolicy)
        ensures
            p == default_policy(self),
    {
        match self {
            EntityType::Synthetic => MissingKeyPolicy::Strict,
            _ => MissingKeyPolicy::Lenient,
        }
    }

    /// The pattern handed to the store's key enumeration: the prefix, then `*`.
    pub fn pattern(self) -> (p: String)
        ensures
            p@ == prefix_text(self).push('*'),
    {
        let mut p = String::from_str(self.prefix());
        p.append("*");
        proof {
            reveal_strlit("*");
            assert(p@ =~= prefix_text(self).push('*'));
        }
        p
    }
}

/// The five entity types, in the order in which a cache is assembled.
pub fn all_entity_types() -> (all: Vec<EntityType>)
    ensures
        all@ == seq![
            EntityType::Currency,
            EntityType::Instrument,
            EntityType::Synthetic,
            EntityType::Account,
            EntityType::Order,
        ],
{
    let mut all: Vec<EntityType> = Vec::new();
    all.push(EntityType::Currency);
    all.push(EntityType::Instrument);
    all.push(EntityType::Synthetic);
    all.push(EntityType::Account);
    all.push(EntityType::Order);
    assert(all@ =~= seq![
        EntityType::Currency,
        EntityType::Instrument,
        EntityType::Synthetic,
        EntityType::Account,
        EntityType::Order,
    ]);
    all
}

} // verus!
