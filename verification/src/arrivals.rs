//! The late-arrival channel: pending transactions validated after a
//! best-transactions iterator snapshot was taken reach it through a
//! broadcast channel, polled without blocking before each yield.

use vstd::prelude::*;
use crate::tx::PendingTransaction;

verus! {

#[verifier::external_type_specification]
#[verifier::external_body]
#[verifier::reject_recursive_types(T)]
pub struct ExReceiver<T>(tokio::sync::broadcast::Receiver<T>);

/// One non-blocking poll of the late-arrival channel.
#[derive(Clone, PartialEq, Eq, Debug)]
pub enum ArrivalPoll {
    /// A pending transaction arrived.
    Arrived(PendingTransaction),
    /// The channel holds nothing right now.
    Empty,
    /// The receiver lagged and lost messages; polling again recovers.
    Lagged,
    /// All senders are gone; no arrival will ever come again.
    Closed,
}

/// Relies on `tokio::sync::broadcast::Receiver::try_recv`: a non-blocking
/// poll that returns a value, `Empty`, `Lagged` or `Closed`. What comes
/// back depends on concurrent senders, so nothing is promised of the
/// outcome; the caller states what holds whichever variant arrives.
#[verifier::external_body]
pub(crate) fn poll_arrival(rx: &mut tokio::sync::broadcast::Receiver<PendingTransaction>) -> (r:
    ArrivalPoll) {
    match rx.try_recv() {
        Ok(tx) => ArrivalPoll::Arrived(tx),
        Err(tokio::sync::broadcast::error::TryRecvError::Empty) => ArrivalPoll::Empty,
        Err(tokio::sync::broadcast::error::TryRecvError::Lagged(_)) => ArrivalPoll::Lagged,
        Err(tokio::sync::broadcast::error::TryRecvError::Closed) => ArrivalPoll::Closed,
    }
}

} // verus!
