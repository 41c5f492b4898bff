//! The bridge between the background hydration and its synchronous consumer.
//!
//! A bridge has two ends, each of which can be used once. The background work
//! holds the [`Delivery`] and hands its result over; the consumer holds the
//! [`PendingHydration`] and blocks on it only when it needs the result. Both
//! ends are consumed by their one operation, so a handle goes from pending to
//! fulfilled to consumed and cannot be resolved twice.

use vstd::prelude::*;
use std::sync::mpsc::{Receiver, Sender};
use crate::error::{HydrationError, HydrationErrorView};
use crate::hydrate::HydrationResult;

verus! {

/// The receiving end of a standard-library channel, carried through unopened.
#[verifier::external_type_specification]
#[verifier::external_body]
#[verifier::reject_recursive_types(T)]
pub struct ExReceiver<T>(Receiver<T>);

/// The sending end of a standard-library channel, carried through unopened.
#[verifier::external_type_specification]
#[verifier::external_body]
#[verifier::reject_recursive_types(T)]
pub struct ExSender<T>(Sender<T>);

/// The end of a bridge held by the background work.
pub struct Delivery {
    sender: Sender<Result<HydrationResult, HydrationError>>,
}

/// The handle of a hydration in progress, held by the consumer.
pub struct PendingHydration {
    receiver: Receiver<Result<HydrationResult, HydrationError>>,
}

/// `std::sync::mpsc::channel`: makes the two ends of a new channel. Nothing is
/// claimed of them.
#[verifier::external_body]
fn open_channel() -> (ends: (
    Sender<Result<HydrationResult, HydrationError>>,
    Receiver<Result<HydrationResult, HydrationError>>,
)) {
    std::sync::mpsc::channel()
}

/// `Sender::send`: hands a value to the channel without blocking. The answer
/// says whether the channel took it, which depends on whether the receiving
/// end still exists; nothing is claimed of it.
#[verifier::external_body]
fn send_over(
    sender: Sender<Result<HydrationResult, HydrationError>>,
    result: Result<HydrationResult, HydrationError>,
) -> (sent: bool) {
    match sender.send(result) {
        Ok(()) => true,
        Err(_) => false,
    }
}

/// `Receiver::recv`: blocks until a value arrives or every sending end is
/// gone, and gives the value or `None`. Which of the two happens depends on
/// the other end; nothing is claimed of it.
#[verifier::external_body]
fn receive_from(receiver: Receiver<Result<HydrationResult, HydrationError>>) -> (received: Option<
    Result<HydrationResult, HydrationError>,
>) {
    match receiver.recv() {
        Ok(delivered) => Some(delivered),
        Err(_) => None,
    }
}

/// Makes a bridge: the end that delivers and the handle that resolves.
pub fn bridge() -> (ends: (Delivery, PendingHydration)) {
    let (sender, receiver) = open_channel();
    (Delivery { sender }, PendingHydration { receiver })
}

/// What the consumer gets for what the bridge handed over: the delivered
/// result as it is, or `BridgeClosed` when the background work ended without
/// delivering one. The bridge relays and never interprets.
pub fn relay(received: Option<Result<HydrationResult, HydrationError>>) -> (r: Result<
    HydrationResult,
    HydrationError,
>)
    ensures
        match received {
            Some(delivered) => r == delivered,
            None => r is Err && r->Err_0@ == HydrationErrorView::BridgeClosed,
        },
{
    match received {
        Some(delivered) => delivered,
        None => Err(HydrationError::BridgeClosed),
    }
}

impl Delivery {
    /// Hands the hydration's result to the consumer, without blocking. The
    /// answer is `false` when the consumer has given its handle up.
    pub fn deliver(self, result: Result<HydrationResult, HydrationError>) -> (sent: bool) {
        send_over(self.sender, result)
    }
}

impl PendingHydration {
    /// Blocks until the background work has delivered its result or has ended
    /// without one, and returns what [`relay`] makes of it.
    pub fn resolve(self) -> (r: Result<HydrationResult, HydrationError>) {
        relay(receive_from(self.receiver))
    }
}

} // verus!
