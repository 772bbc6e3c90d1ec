//! Looking into a channel without waiting.

use vstd::prelude::*;
use crossbeam::channel::{Receiver, TryRecvError};

verus! {

#[verifier::external_type_specification]
#[verifier::external_body]
#[verifier::reject_recursive_types(T)]
pub struct ExReceiver<T>(crossbeam::channel::Receiver<T>);

/// What a look at a channel found.
pub enum Polled<T> {
    /// The message that had waited longest.
    Message(T),
    /// Nothing: no message is waiting.
    Empty,
    /// Nothing, and nothing will come: every sender is gone.
    Disconnected,
}

/// Calls `crossbeam::channel::Receiver::try_recv`, which takes the oldest
/// waiting message from the channel or says why there is none, and never
/// waits. Which of the three comes back depends on the senders, so nothing is
/// claimed of it.
#[verifier::external_body]
pub(crate) fn try_receive<T>(receiver: &Receiver<T>) -> (polled: Polled<T>) {
    match receiver.try_recv() {
        Ok(message) => Polled::Message(message),
        Err(TryRecvError::Empty) => Polled::Empty,
        Err(TryRecvError::Disconnected) => Polled::Disconnected,
    }
}

} // verus!
