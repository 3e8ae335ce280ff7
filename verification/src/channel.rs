use crate::mailbox::HasMailbox;
use tokio::sync::mpsc::{Receiver, Sender};
use vstd::prelude::*;

verus! {

/// Declares `tokio::sync::mpsc::Sender`, the sending end of a bounded channel, as
/// an opaque type: nothing is claimed of what is inside a value.
#[verifier::external_type_specification]
#[verifier::external_body]
#[verifier::reject_recursive_types(T)]
pub struct ExSender<T>(Sender<T>);

/// Declares `tokio::sync::mpsc::Receiver`, the receiving end of a bounded
/// channel, as an opaque type: nothing is claimed of what is inside a value.
#[verifier::external_type_specification]
#[verifier::external_body]
#[verifier::reject_recursive_types(T)]
pub struct ExReceiver<T>(Receiver<T>);

/// The largest inbox capacity that a bounded tokio channel accepts
/// (its semaphore holds at most `usize::MAX >> 3` permits).
pub const MAX_CHANNEL_CAPACITY: usize = usize::MAX >> 3;

/// Creates a bounded tokio channel (`tokio::sync::mpsc::channel`) and wraps its
/// two ends. tokio panics on a capacity of zero or above `MAX_CHANNEL_CAPACITY`,
/// so those are excluded. Claimed, as tokio's source shows: the channel's bound
/// is `capacity`, and the receiving end is the one that the sending end feeds.
#[verifier::external_body]
pub(crate) fn bounded_channel<A: HasMailbox>(capacity: usize) -> (r: (Handle<A>, Inbox<A::Message>))
    requires
        0 < capacity <= MAX_CHANNEL_CAPACITY,
    ensures
        r.0.capacity() == capacity,
        r.1.fed_by() == r.0.inbox(),
{
    let (tx, rx) = tokio::sync::mpsc::channel(capacity);
    let feeder = Ghost(tx);
    (Handle { sender: tx, capacity: Ghost(capacity as nat) }, Inbox { receiver: rx, feeder })
}

/// Clones a tokio sender (`Sender::clone`). tokio's clone copies the handle on
/// the same shared channel, so the clone is claimed equal to the original: it
/// feeds the same channel.
#[verifier::external_body]
fn clone_sender<T>(sender: &Sender<T>) -> (r: Sender<T>)
    ensures
        r == *sender,
{
    sender.clone()
}

/// A cloneable handle to a running actor: it wraps the sending end of the
/// actor's inbox. When every handle is dropped the inbox closes, which makes the
/// actor's message loop exit.
///
/// The ghost `capacity` is the bound of the channel that `sender` feeds: the
/// fields are private to this module, and the only places that make a handle
/// are `bounded_channel`, which sets it beside the tokio channel of that bound,
/// and `clone`, which keeps the same sender and the same capacity.
pub struct Handle<A: HasMailbox> {
    sender: Sender<A::Message>,
    capacity: Ghost<nat>,
}

impl<A: HasMailbox> Handle<A> {
    /// The sending end of the inbox that this handle feeds.
    pub closed spec fn inbox(self) -> Sender<A::Message> {
        self.sender
    }

    /// How many messages the inbox holds at most.
    pub closed spec fn capacity(self) -> nat {
        self.capacity@
    }

    /// The sending end of the actor's inbox.
    pub fn sender(&self) -> (s: &Sender<A::Message>)
        ensures
            *s == self.inbox(),
    {
        &self.sender
    }
}

impl<A: HasMailbox> Clone for Handle<A> {
    /// A further handle on the same inbox.
    fn clone(&self) -> (h: Self)
        ensures
            h.inbox() == self.inbox(),
            h.capacity() == self.capacity(),
    {
        Handle { sender: clone_sender(&self.sender), capacity: Ghost(self.capacity@) }
    }
}

/// The receiving end of an actor's inbox, which the actor's loop reads.
#[verifier::reject_recursive_types(M)]
pub struct Inbox<M> {
    receiver: Receiver<M>,
    feeder: Ghost<Sender<M>>,
}

impl<M> Inbox<M> {
    /// The sending end that feeds this inbox.
    pub closed spec fn fed_by(self) -> Sender<M> {
        self.feeder@
    }

    /// The receiving end, for the loop to read.
    pub fn into_receiver(self) -> Receiver<M> {
        self.receiver
    }
}

} // verus!
