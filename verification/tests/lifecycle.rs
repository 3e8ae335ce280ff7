use stagecraft::{Flavor, Lifecycle, Stage, Step, Wakeup};

type S = Step<u32, &'static str>;

fn resume(l: &mut Lifecycle) -> S {
    l.resume()
}

#[test]
fn plain_actor_runs_then_shuts_down_on_closed_inbox() {
    let mut l = Lifecycle::new(Flavor::Plain);
    assert_eq!(l.current(), Stage::Fresh);
    assert_eq!(resume(&mut l), Step::Init);
    assert_eq!(resume(&mut l), Step::Select);
    assert_eq!(l.wake(Wakeup::Inbox(Some(7u32))), S::HandleMessage(7));
    assert_eq!(resume(&mut l), Step::Select);
    assert_eq!(l.wake(Wakeup::Inbox(Some(8u32))), S::HandleMessage(8));
    assert_eq!(resume(&mut l), Step::Select);
    assert_eq!(l.wake::<u32, &str>(Wakeup::Inbox(None)), Step::CancelToken);
    assert_eq!(resume(&mut l), Step::CloseTracker);
    assert_eq!(resume(&mut l), Step::WaitTracker);
    assert_eq!(resume(&mut l), Step::OnStop);
    assert_eq!(resume(&mut l), Step::Exit);
    assert_eq!(l.current(), Stage::Exit);
}

#[test]
fn cancellation_stops_a_plain_actor() {
    let mut l = Lifecycle::new(Flavor::Plain);
    assert_eq!(resume(&mut l), Step::Init);
    assert_eq!(resume(&mut l), Step::Select);
    assert_eq!(l.wake::<u32, &str>(Wakeup::Cancelled), Step::CancelToken);
    assert_eq!(l.current(), Stage::CancelToken);
}

#[test]
fn stream_actor_creates_its_stream_after_init() {
    let mut l = Lifecycle::new(Flavor::Stream);
    assert_eq!(resume(&mut l), Step::Init);
    assert_eq!(resume(&mut l), Step::CreateStream);
    assert_eq!(resume(&mut l), Step::Select);
    assert_eq!(l.wake(Wakeup::<u32, &str>::Stream(Some("tick"))), S::HandleEvent("tick"));
    assert_eq!(resume(&mut l), Step::Select);
    assert_eq!(l.wake(Wakeup::<u32, &str>::Inbox(Some(1))), S::HandleMessage(1));
    assert_eq!(resume(&mut l), Step::Select);
    assert_eq!(l.wake(Wakeup::<u32, &str>::Stream(None)), Step::CancelToken);
    assert_eq!(resume(&mut l), Step::CloseTracker);
    assert_eq!(resume(&mut l), Step::WaitTracker);
    assert_eq!(resume(&mut l), Step::OnStop);
    assert_eq!(resume(&mut l), Step::Exit);
}

#[test]
fn local_stream_actor_drains_then_signals() {
    let mut l = Lifecycle::new(Flavor::LocalStream);
    assert_eq!(resume(&mut l), Step::Init);
    assert_eq!(resume(&mut l), Step::CreateStream);
    assert_eq!(resume(&mut l), Step::Select);
    assert_eq!(l.wake(Wakeup::<u32, &str>::Cancelled), Step::CancelToken);
    assert_eq!(resume(&mut l), Step::CloseTracker);
    assert_eq!(resume(&mut l), Step::WaitTracker);
    assert_eq!(resume(&mut l), Step::OnStop);
    assert_eq!(resume(&mut l), Step::SignalDone);
    assert_eq!(resume(&mut l), Step::Exit);
}

#[test]
fn closed_inbox_stops_a_stream_actor() {
    let mut l = Lifecycle::new(Flavor::LocalStream);
    resume(&mut l);
    resume(&mut l);
    resume(&mut l);
    assert_eq!(l.wake(Wakeup::<u32, &str>::Inbox(None)), Step::CancelToken);
}

#[derive(Debug, PartialEq, Eq)]
enum CounterMessage {
    Increment,
    Get,
    Stop,
}

/// Runs a counter actor whose inbox holds `inbox` and then closes, driving it
/// through the library's lifecycle; returns the replies to `Get`, the final
/// count and the actions issued.
fn run_counter(inbox: Vec<CounterMessage>) -> (Vec<u64>, u64, Vec<Stage>) {
    let mut l = Lifecycle::new(Flavor::Plain);
    let mut inbox = inbox.into_iter();
    let mut count: Option<u64> = None;
    let mut cancelled = false;
    let mut replies = Vec::new();
    let mut stages = Vec::new();
    let mut step: Step<CounterMessage, ()> = l.resume();
    loop {
        stages.push(l.current());
        step = match step {
            Step::Init => {
                count = Some(0);
                l.resume()
            }
            Step::Select => {
                let w = if cancelled { Wakeup::Cancelled } else { Wakeup::Inbox(inbox.next()) };
                l.wake(w)
            }
            Step::HandleMessage(CounterMessage::Increment) => {
                *count.as_mut().unwrap() += 1;
                l.resume()
            }
            Step::HandleMessage(CounterMessage::Get) => {
                replies.push(count.unwrap());
                l.resume()
            }
            Step::HandleMessage(CounterMessage::Stop) => {
                cancelled = true;
                l.resume()
            }
            Step::Exit => break,
            _ => l.resume(),
        };
    }
    (replies, count.unwrap(), stages)
}

#[test]
fn counter_counts_three_increments() {
    let (replies, count, stages) = run_counter(vec![
        CounterMessage::Increment,
        CounterMessage::Increment,
        CounterMessage::Increment,
        CounterMessage::Get,
    ]);
    assert_eq!(replies, vec![3]);
    assert_eq!(count, 3);
    let tail = &stages[stages.len() - 5..];
    assert_eq!(
        tail,
        &[Stage::CancelToken, Stage::CloseTracker, Stage::WaitTracker, Stage::OnStop, Stage::Exit]
    );
    assert_eq!(stages.iter().filter(|s| **s == Stage::OnStop).count(), 1);
    assert_eq!(stages.iter().filter(|s| **s == Stage::Init).count(), 1);
}

#[test]
fn counter_stop_ends_before_later_messages() {
    let (replies, count, stages) = run_counter(vec![
        CounterMessage::Increment,
        CounterMessage::Stop,
        CounterMessage::Increment,
        CounterMessage::Get,
    ]);
    assert!(replies.is_empty());
    assert_eq!(count, 1);
    let handled = stages.iter().filter(|s| **s == Stage::HandleMessage).count();
    assert_eq!(handled, 2);
}
