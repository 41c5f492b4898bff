//! The synchronous interface a cache assembler loads its entities through.

use vstd::prelude::*;
use crate::bridge::PendingHydration;
use crate::entity::EntityType;
use crate::error::HydrationError;
use crate::hydrate::HydrationResult;

verus! {

/// A source of cached entities. Each `load_*` that returns a handle starts the
/// hydration of one entity type and returns at once; the mapping is had by
/// resolving the handle. Implementations do the store's I/O, so no outcome is
/// promised of them: what starting an entity's hydration amounts to is for
/// each adapter to say, through `started`.
pub trait CacheDatabaseAdapter: Sized {
    /// What this adapter says of starting the hydration of `entity` in the
    /// state `self`: the state `after` that it is left in, and the handle that
    /// it gave. Nothing is asked of the relation, and an adapter that has
    /// nothing to say leaves it as it is.
    open spec fn started(
        &self,
        entity: EntityType,
        after: Self,
        handle: Result<PendingHydration, HydrationError>,
    ) -> bool {
        true
    }

    /// Loads every entity in one blocking call.
    fn load(&self) -> Result<HydrationResult, HydrationError>;

    /// Starts the hydration of the currencies.
    fn load_currencies(&mut self) -> (handle: Result<PendingHydration, HydrationError>)
        ensures
            old(self).started(EntityType::Currency, *final(self), handle),
    ;

    /// Starts the hydration of the instruments.
    fn load_instruments(&mut self) -> (handle: Result<PendingHydration, HydrationError>)
        ensures
            old(self).started(EntityType::Instrument, *final(self), handle),
    ;

    /// Starts the hydration of the synthetics.
    fn load_synthetics(&mut self) -> (handle: Result<PendingHydration, HydrationError>)
        ensures
            old(self).started(EntityType::Synthetic, *final(self), handle),
    ;

    /// Starts the hydration of the accounts.
    fn load_accounts(&mut self) -> (handle: Result<PendingHydration, HydrationError>)
        ensures
            old(self).started(EntityType::Account, *final(self), handle),
    ;

    /// Starts the hydration of the orders.
    fn load_orders(&mut self) -> (handle: Result<PendingHydration, HydrationError>)
        ensures
            old(self).started(EntityType::Order, *final(self), handle),
    ;

    /// Loads the positions in one blocking call.
    fn load_positions(&mut self) -> Result<HydrationResult, HydrationError>;
}

/// Starts the hydration of `entity` through `adapter` and returns its handle:
/// what the adapter's own `load_*` for that entity type gave, and nothing of
/// another entity type.
pub fn start<A: CacheDatabaseAdapter>(adapter: &mut A, entity: EntityType) -> (handle: Result<
    PendingHydration,
    HydrationError,
>)
    ensures
        old(adapter).started(entity, *final(adapter), handle),
{
    match entity {
        EntityType::Currency => adapter.load_currencies(),
        EntityType::Instrument => adapter.load_instruments(),
        EntityType::Synthetic => adapter.load_synthetics(),
        EntityType::Account => adapter.load_accounts(),
        EntityType::Order => adapter.load_orders(),
    }
}

/// Waits for the hydration behind `handle` and returns its mapping.
pub fn resolve(handle: PendingHydration) -> (r: Result<HydrationResult, HydrationError>) {
    handle.resolve()
}

} // verus!
