//! The channels over which threads hand each other samples and measurements.
//!
//! A channel is shared by every thread that holds an end of it. What is in it at
//! a given moment is therefore no function of the values at hand, and the calls
//! below promise only what holds whatever the other threads do.
use crossbeam_channel::{Receiver, Sender};
use std::time::Duration;
use vstd::prelude::*;

verus! {

/// `crossbeam_channel::Sender`, the end into which messages are put.
#[verifier::external_type_specification]
#[verifier::external_body]
#[verifier::reject_recursive_types(T)]
pub struct ExSender<T>(crossbeam_channel::Sender<T>);

/// `crossbeam_channel::Receiver`, the end from which messages are taken.
#[verifier::external_type_specification]
#[verifier::external_body]
#[verifier::reject_recursive_types(T)]
pub struct ExReceiver<T>(crossbeam_channel::Receiver<T>);

/// `Sender::clone`: one more end of the same channel. Two ends have nothing in
/// common that could be stated of them, so nothing is claimed of the new one.
pub assume_specification<T>[ <crossbeam_channel::Sender<T> as std::clone::Clone>::clone ](
    sender: &crossbeam_channel::Sender<T>,
) -> (r: crossbeam_channel::Sender<T>)
;

/// `Receiver::clone`: one more end of the same channel. As with senders, nothing
/// is claimed of it.
pub assume_specification<T>[ <crossbeam_channel::Receiver<T> as std::clone::Clone>::clone ](
    receiver: &crossbeam_channel::Receiver<T>,
) -> (r: crossbeam_channel::Receiver<T>)
;

/// Calls `crossbeam_channel::bounded`: a new channel that holds up to `capacity`
/// messages. A capacity for which there is no memory is left out.
#[verifier::external_body]
pub(crate) fn bounded_channel<T>(capacity: usize) -> (ends: (Sender<T>, Receiver<T>))
    requires
        capacity <= 1,
{
    crossbeam_channel::bounded(capacity)
}

/// Calls `Sender::len`: how many messages wait in the channel. Other threads
/// change that at any time, so nothing is claimed of the number.
#[verifier::external_body]
pub(crate) fn queued<T>(sender: &Sender<T>) -> usize {
    sender.len()
}

/// Calls `Sender::send`, which waits for room. When every receiver is gone the
/// message is handed back; nothing is claimed of when that is the case.
#[verifier::external_body]
pub(crate) fn send<T>(sender: &Sender<T>, message: T) -> (r: Result<(), T>)
    ensures
        r matches Err(back) ==> back == message,
{
    match sender.send(message) {
        Ok(()) => Ok(()),
        Err(refused) => Err(refused.0),
    }
}

/// Calls `Sender::try_send`, which does not wait. When there is no room, or every
/// receiver is gone, the message is handed back; nothing is claimed of when that is
/// the case.
#[verifier::external_body]
pub(crate) fn offer<T>(sender: &Sender<T>, message: T) -> (r: Result<(), T>)
    ensures
        r matches Err(back) ==> back == message,
{
    match sender.try_send(message) {
        Ok(()) => Ok(()),
        Err(refused) => Err(refused.into_inner()),
    }
}

/// Calls `Receiver::recv_timeout`: the next message, or nothing when none came in
/// the given time or every sender is gone. Which of these it is, and what the
/// message holds, is up to other threads, so nothing is claimed of it.
#[verifier::external_body]
pub(crate) fn receive_within<T>(receiver: &Receiver<T>, millis: u64) -> Option<T> {
    receiver.recv_timeout(Duration::from_millis(millis)).ok()
}

/// Whether `ends` are the ends of a channel that a call of [`bounded_channel`] made.
pub open(crate) spec fn was_opened<T>(capacity: usize, ends: (Sender<T>, Receiver<T>)) -> bool {
    call_ensures(bounded_channel::<T>, (capacity,), ends)
}

/// Whether a call of [`queued`] on `sender` has found `count` messages.
pub open(crate) spec fn was_counted<T>(sender: Sender<T>, count: usize) -> bool {
    call_ensures(queued::<T>, (&sender,), count)
}

/// Whether a call of [`send`] has put `message` into the channel of `sender`, with the
/// result `r`.
pub open(crate) spec fn was_put<T>(sender: Sender<T>, message: T, r: Result<(), T>) -> bool {
    call_ensures(send::<T>, (&sender, message), r)
}

/// Whether a call of [`offer`] has handed `message` to the channel of `sender` without
/// waiting, with the result `r`.
pub open(crate) spec fn was_offered<T>(sender: Sender<T>, message: T, r: Result<(), T>) -> bool {
    call_ensures(offer::<T>, (&sender, message), r)
}

/// Whether a call of [`receive_within`] has waited for so long on `receiver`, with the
/// result `r`.
pub open(crate) spec fn was_received<T>(receiver: Receiver<T>, millis: u64, r: Option<T>) -> bool {
    call_ensures(receive_within::<T>, (&receiver, millis), r)
}

} // verus!
