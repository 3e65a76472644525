//! The channel bridge: an unbounded FIFO queue backed by a
//! crossbeam channel whose two endpoints are held privately, so that every
//! access goes through this type and the queue behaves as a plain sequence.

use vstd::prelude::*;

verus! {

#[verifier::external_type_specification]
#[verifier::external_body]
#[verifier::reject_recursive_types(T)]
pub struct ExSender<T>(crossbeam_channel::Sender<T>);

#[verifier::external_type_specification]
#[verifier::external_body]
#[verifier::reject_recursive_types(T)]
pub struct ExReceiver<T>(crossbeam_channel::Receiver<T>);

/// One of the bridge queues: an unbounded FIFO channel. Both endpoints are
/// private to this struct and are never cloned out, so the items it holds
/// are exactly those pushed and not yet drained, oldest first.
#[verifier::reject_recursive_types(T)]
pub struct Channel<T> {
    sender: crossbeam_channel::Sender<T>,
    receiver: crossbeam_channel::Receiver<T>,
    items: Ghost<Seq<T>>,
}

/// Relies on `crossbeam_channel::unbounded`: it creates a channel of
/// unbounded capacity that holds nothing yet; the pair are its only
/// endpoints.
#[verifier::external_body]
fn channel_endpoints<T>() -> (crossbeam_channel::Sender<T>, crossbeam_channel::Receiver<T>) {
    crossbeam_channel::unbounded()
}

impl<T> Channel<T> {
    /// The items currently queued, oldest first.
    pub closed spec fn view(&self) -> Seq<T> {
        self.items@
    }

    /// Create an empty queue.
    pub fn new() -> (r: Channel<T>)
        ensures
            r@ == Seq::<T>::empty(),
    {
        let (sender, receiver) = channel_endpoints();
        Channel { sender, receiver, items: Ghost(Seq::empty()) }
    }

    /// Relies on `crossbeam_channel::Sender::send` on an unbounded
    /// channel: it appends the value without blocking, and cannot fail
    /// while the receiver is alive, which it is here because this struct
    /// owns it.
    #[verifier::external_body]
    pub fn push(&mut self, x: T)
        ensures
            final(self)@ == old(self)@.push(x),
    {
        let _ = self.sender.send(x);
    }

    /// Relies on `crossbeam_channel::Receiver::try_iter`: it yields,
    /// without blocking, exactly the items queued at the time of the call,
    /// oldest first, and removes them from the channel.
    #[verifier::external_body]
    pub fn drain(&mut self) -> (r: Vec<T>)
        ensures
            r@ == old(self)@,
            final(self)@ == Seq::<T>::empty(),
    {
        self.receiver.try_iter().collect()
    }
}

} // verus!
