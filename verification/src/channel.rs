//! The message channels between the hub and its peers.
//!
//! A peer's channel is an unbounded queue of the `futures-channel` crate. The
//! hub keeps the sending end and the peer the receiving end. What happens
//! inside the queue is not verified: the items of this module state what the
//! library relies on.

use futures_channel::mpsc::{TryRecvError, UnboundedReceiver, UnboundedSender};
use vstd::prelude::*;

verus! {

/// The sending end of a peer's channel, `futures_channel::mpsc::UnboundedSender`.
/// Its content is opaque to the verifier.
#[verifier::external_type_specification]
#[verifier::external_body]
#[verifier::reject_recursive_types(T)]
pub struct ExUnboundedSender<T>(futures_channel::mpsc::UnboundedSender<T>);

/// The receiving end of a peer's channel,
/// `futures_channel::mpsc::UnboundedReceiver`. Its content is opaque to the
/// verifier.
#[verifier::external_type_specification]
#[verifier::external_body]
#[verifier::reject_recursive_types(T)]
pub struct ExUnboundedReceiver<T>(futures_channel::mpsc::UnboundedReceiver<T>);

/// What one look into a channel's receiving end found.
#[derive(Debug, PartialEq, Eq)]
pub enum Polled {
    /// The next message in the queue.
    Message(String),
    /// The queue is empty, and a sender may still fill it.
    Empty,
    /// The queue is empty and closed: nothing will arrive any more.
    Closed,
}

/// Creates a channel, by `futures_channel::mpsc::unbounded`. Nothing is
/// claimed of the two ends.
#[verifier::external_body]
pub(crate) fn open() -> (ends: (UnboundedSender<String>, UnboundedReceiver<String>)) {
    futures_channel::mpsc::unbounded()
}

/// Puts `message` into the queue without waiting, by
/// `UnboundedSender::unbounded_send`, and says whether the queue took it. The
/// queue refuses once its receiving end is closed or gone, which depends on
/// the peer: nothing is claimed of the answer. The call returns at once; it
/// panics only if the queue already holds as many messages as half a machine
/// word can count, which no memory can hold.
#[verifier::external_body]
pub(crate) fn offer(channel: &UnboundedSender<String>, message: String) -> (accepted: bool) {
    channel.unbounded_send(message).is_ok()
}

/// Takes the next message out of the queue without waiting, by
/// `UnboundedReceiver::try_recv`. What is found depends on the senders:
/// nothing is claimed of the answer.
#[verifier::external_body]
pub(crate) fn poll(inbox: &mut UnboundedReceiver<String>) -> (polled: Polled) {
    match inbox.try_recv() {
        Ok(message) => Polled::Message(message),
        Err(TryRecvError::Empty) => Polled::Empty,
        Err(TryRecvError::Closed) => Polled::Closed,
    }
}

} // verus!
