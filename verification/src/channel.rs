//! Bounded channels between the front end and a connection's task, as the
//! `futures` crate provides them.

use futures::channel::mpsc::{Receiver, Sender};
use vstd::prelude::*;

verus! {

/// The sending end of a bounded channel, `futures::channel::mpsc::Sender`.
/// Nothing is known of what it holds.
#[verifier::external_type_specification]
#[verifier::external_body]
#[verifier::reject_recursive_types(T)]
pub struct ExSender<T>(Sender<T>);

/// The receiving end of a bounded channel, `futures::channel::mpsc::Receiver`.
/// Nothing is known of what it holds.
#[verifier::external_type_specification]
#[verifier::external_body]
#[verifier::reject_recursive_types(T)]
pub struct ExReceiver<T>(Receiver<T>);

/// The two ends of a new channel from `futures::channel::mpsc::channel`.
///
/// `channel` panics when `buffer` reaches a quarter of what a `usize` can
/// count; the demand on `buffer` stays far below that. Nothing is claimed of
/// the two ends.
#[verifier::external_body]
pub(crate) fn bounded_channel<T>(buffer: usize) -> (ends: (Sender<T>, Receiver<T>))
    requires
        buffer <= 0xffff,
{
    futures::channel::mpsc::channel(buffer)
}

/// A further sending end of the channel of `sender`, from `Sender::clone`.
/// Nothing is claimed of it.
///
/// `clone` panics when the channel already has as many senders as it can
/// count, about half of what a `usize` can count: more than memory holds.
#[verifier::external_body]
pub(crate) fn another_sender<T>(sender: &Sender<T>) -> (copy: Sender<T>) {
    sender.clone()
}

} // verus!
