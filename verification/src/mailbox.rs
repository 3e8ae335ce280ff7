use vstd::prelude::*;

verus! {

/// Base trait for all actors.
///
/// Declares the actor's message type and the capacity of its inbox channel.
pub trait HasMailbox: Sized + 'static {
    /// The type of messages this actor accepts.
    type Message: Send + 'static;

    /// Inbox channel capacity. Defaults to `128`.
    fn channel_size() -> (size: usize)
        default_ensures
            size == 128,
    {
        128
    }
}

} // verus!
