use stagecraft::{call_outcome, cast_outcome, open_mailbox, ActorDead, HasMailbox, MAX_CHANNEL_CAPACITY};

struct Counter;

impl HasMailbox for Counter {
    type Message = u64;
}

struct Tiny;

impl HasMailbox for Tiny {
    type Message = String;

    fn channel_size() -> usize {
        2
    }
}

#[test]
fn default_channel_size_is_128() {
    assert_eq!(Counter::channel_size(), 128);
}

#[test]
fn overridden_channel_size_is_kept() {
    assert_eq!(Tiny::channel_size(), 2);
}

#[test]
fn actor_dead_describes_itself() {
    assert_eq!(ActorDead(()).to_string(), "actor is no longer running");
    assert_eq!(ActorDead(5u8).to_string(), "actor is no longer running");
}

#[test]
fn delivered_cast_is_ok() {
    let r: Result<(), ActorDead<u32>> = cast_outcome(None);
    assert!(r.is_ok());
}

#[test]
fn undelivered_cast_hands_the_message_back() {
    match cast_outcome(Some(String::from("hello"))) {
        Err(ActorDead(msg)) => assert_eq!(msg, "hello"),
        Ok(()) => panic!("a message that was not delivered reported success"),
    }
}

#[test]
fn answered_call_returns_the_reply() {
    match call_outcome(Some(42u64)) {
        Ok(v) => assert_eq!(v, 42),
        Err(_) => panic!("an answered call reported failure"),
    }
}

#[test]
fn unanswered_call_reports_a_dead_actor() {
    let r: Result<u64, ActorDead<()>> = call_outcome(None);
    assert!(matches!(r, Err(ActorDead(()))));
}

#[test]
fn mailbox_delivers_through_every_handle() {
    let (handle, inbox) = open_mailbox::<Counter>(Counter::channel_size());
    let mut inbox = inbox.into_receiver();
    let other = handle.clone();
    handle.sender().try_send(1).unwrap();
    other.sender().try_send(2).unwrap();
    assert_eq!(inbox.try_recv().unwrap(), 1);
    assert_eq!(inbox.try_recv().unwrap(), 2);
}

#[test]
fn mailbox_holds_its_capacity() {
    let (handle, _inbox) = open_mailbox::<Tiny>(Tiny::channel_size());
    assert_eq!(handle.sender().max_capacity(), 2);
    let copy = handle.clone();
    assert_eq!(copy.sender().max_capacity(), 2);
    assert!(copy.sender().same_channel(handle.sender()));
    handle.sender().try_send(String::from("a")).unwrap();
    handle.sender().try_send(String::from("b")).unwrap();
    assert!(handle.sender().try_send(String::from("c")).is_err());
}

#[test]
fn mailbox_closes_when_every_handle_is_dropped() {
    let (handle, inbox) = open_mailbox::<Counter>(4);
    let mut inbox = inbox.into_receiver();
    let other = handle.clone();
    drop(handle);
    other.sender().try_send(9).unwrap();
    drop(other);
    assert_eq!(inbox.try_recv().unwrap(), 9);
    assert!(matches!(
        inbox.try_recv(),
        Err(tokio::sync::mpsc::error::TryRecvError::Disconnected)
    ));
}

#[test]
fn largest_capacity_is_accepted() {
    let (handle, _inbox) = open_mailbox::<Counter>(MAX_CHANNEL_CAPACITY);
    assert_eq!(handle.sender().max_capacity(), MAX_CHANNEL_CAPACITY);
}
