use crate::channel::{bounded_channel, Handle, Inbox, MAX_CHANNEL_CAPACITY};
use crate::mailbox::HasMailbox;
use vstd::prelude::*;

verus! {

/// Error returned when a message cannot be delivered because the actor is no
/// longer running.
///
/// The inner value is the original message for a cast (so the caller can
/// recover it), or `()` for a call.
#[derive(Debug)]
pub struct ActorDead<M>(pub M);

impl<M> ActorDead<M> {
    /// The human-readable description of this error.
    pub fn to_string(&self) -> (text: String)
        ensures
            text@ == "actor is no longer running"@,
    {
        String::from_str("actor is no longer running")
    }
}

/// What a cast reports, given what came back from handing the message to the
/// inbox: `None` when the inbox took it, `Some(msg)` with the message handed back
/// when the inbox was already closed.
pub fn cast_outcome<M>(undelivered: Option<M>) -> (r: Result<(), ActorDead<M>>)
    ensures
        match undelivered {
            None => r == Ok::<(), ActorDead<M>>(()),
            Some(msg) => r == Err::<(), ActorDead<M>>(ActorDead(msg)),
        },
{
    match undelivered {
        None => Ok(()),
        Some(msg) => Err(ActorDead(msg)),
    }
}

/// What a call reports, given the reply that came back: `None` when the request
/// could not be delivered or the actor dropped the reply channel without
/// answering.
pub fn call_outcome<R>(reply: Option<R>) -> (r: Result<R, ActorDead<()>>)
    ensures
        match reply {
            Some(value) => r == Ok::<R, ActorDead<()>>(value),
            None => r == Err::<R, ActorDead<()>>(ActorDead(())),
        },
{
    match reply {
        Some(value) => Ok(value),
        None => Err(ActorDead(())),
    }
}

/// Opens an actor's inbox with the given capacity and returns the handle that
/// feeds it together with the receiving end that the actor's loop reads.
pub fn open_mailbox<A: HasMailbox>(capacity: usize) -> (r: (Handle<A>, Inbox<A::Message>))
    requires
        0 < capacity <= MAX_CHANNEL_CAPACITY,
    ensures
        r.0.capacity() == capacity,
        r.1.fed_by() == r.0.inbox(),
{
    bounded_channel(capacity)
}

} // verus!
