//! Verified core of a small actor framework: mailboxes and delivery outcomes,
//! the lifecycle of an actor task, and the planning of the helper traits that
//! the `message` attribute generates for message enums.
pub mod channel;
pub mod handle;
pub mod lifecycle;
pub mod mailbox;
pub mod message;

pub use channel::{Handle, Inbox, MAX_CHANNEL_CAPACITY};
pub use handle::{call_outcome, cast_outcome, open_mailbox, ActorDead};
pub use lifecycle::{Flavor, Lifecycle, Stage, Step, Wakeup};
pub use mailbox::HasMailbox;
pub use message::{plan_message, MessagePlan, MethodPlan, PlanError};
