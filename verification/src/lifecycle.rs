use vstd::prelude::*;

verus! {

/// The three ways an actor task is run.
#[derive(Clone, Copy, PartialEq, Eq, Structural, Debug)]
pub enum Flavor {
    /// A `Send` actor on the shared runtime, driven by its inbox alone.
    Plain,
    /// A `Send` actor on the shared runtime that also drives an event stream.
    Stream,
    /// A `!Send` actor with an event stream on a thread of its own.
    LocalStream,
}

/// Where an actor task stands: the action that it was last told to perform.
#[derive(Clone, Copy, PartialEq, Eq, Structural, Debug)]
pub enum Stage {
    Fresh,
    Init,
    CreateStream,
    Select,
    HandleMessage,
    HandleEvent,
    CancelToken,
    CloseTracker,
    WaitTracker,
    OnStop,
    SignalDone,
    Exit,
}

/// What woke the actor's select loop (the branches are polled in this order).
#[derive(Debug, PartialEq, Eq)]
pub enum Wakeup<M, E> {
    /// The actor's cancellation token fired.
    Cancelled,
    /// The event stream yielded an item, or `None` once exhausted.
    Stream(Option<E>),
    /// The inbox yielded a message, or `None` once every handle is gone.
    Inbox(Option<M>),
}

/// The next thing the actor task must do.
#[derive(Debug, PartialEq, Eq)]
pub enum Step<M, E> {
    /// Construct the actor.
    Init,
    /// Create the actor's event stream.
    CreateStream,
    /// Wait on the cancellation token, the stream and the inbox.
    Select,
    /// Process one message.
    HandleMessage(M),
    /// Process one stream event.
    HandleEvent(E),
    /// Cancel the actor's token (and with it every child token).
    CancelToken,
    /// Close the task tracker to new work.
    CloseTracker,
    /// Wait until every tracked task has finished.
    WaitTracker,
    /// Call the actor's `on_stop`.
    OnStop,
    /// Tell the parent that the thread-local actor is done.
    SignalDone,
    /// The task is over.
    Exit,
}

impl<M, E> Step<M, E> {
    pub open spec fn stage(self) -> Stage {
        match self {
            Step::Init => Stage::Init,
            Step::CreateStream => Stage::CreateStream,
            Step::Select => Stage::Select,
            Step::HandleMessage(_) => Stage::HandleMessage,
            Step::HandleEvent(_) => Stage::HandleEvent,
            Step::CancelToken => Stage::CancelToken,
            Step::CloseTracker => Stage::CloseTracker,
            Step::WaitTracker => Stage::WaitTracker,
            Step::OnStop => Stage::OnStop,
            Step::SignalDone => Stage::SignalDone,
            Step::Exit => Stage::Exit,
        }
    }
}

/// Whether the flavor drives an event stream beside the inbox.
pub open spec fn has_stream(f: Flavor) -> bool {
    f != Flavor::Plain
}

/// Whether the flavor signals its parent once `on_stop` has run.
pub open spec fn signals_done(f: Flavor) -> bool {
    f == Flavor::LocalStream
}

/// The stage that follows the completion of the action of stage `s`.
pub open spec fn resumed(f: Flavor, s: Stage) -> Stage {
    match s {
        Stage::Fresh => Stage::Init,
        Stage::Init => if has_stream(f) { Stage::CreateStream } else { Stage::Select },
        Stage::CreateStream => Stage::Select,
        Stage::HandleMessage => Stage::Select,
        Stage::HandleEvent => Stage::Select,
        Stage::CancelToken => Stage::CloseTracker,
        Stage::CloseTracker => Stage::WaitTracker,
        Stage::WaitTracker => Stage::OnStop,
        Stage::OnStop => if signals_done(f) { Stage::SignalDone } else { Stage::Exit },
        Stage::SignalDone => Stage::Exit,
        Stage::Select => Stage::Select,
        Stage::Exit => Stage::Exit,
    }
}

/// The stage that a wakeup of the select loop leads to: a message or an event is
/// handled; cancellation, a closed inbox or an exhausted stream end the loop.
pub open spec fn woken<M, E>(w: Wakeup<M, E>) -> Stage {
    match w {
        Wakeup::Inbox(Some(_)) => Stage::HandleMessage,
        Wakeup::Stream(Some(_)) => Stage::HandleEvent,
        _ => Stage::CancelToken,
    }
}

/// Whether a wakeup can come from the select loop of this flavor.
pub open spec fn wakeup_fits<M, E>(f: Flavor, w: Wakeup<M, E>) -> bool {
    has_stream(f) || !(w is Stream)
}

/// The action, without payload, that stands for a stage reached by a completion.
pub open spec fn unit_step<M, E>(s: Stage) -> Step<M, E> {
    match s {
        Stage::Init => Step::Init,
        Stage::CreateStream => Step::CreateStream,
        Stage::Select => Step::Select,
        Stage::CancelToken => Step::CancelToken,
        Stage::CloseTracker => Step::CloseTracker,
        Stage::WaitTracker => Step::WaitTracker,
        Stage::OnStop => Step::OnStop,
        Stage::SignalDone => Step::SignalDone,
        _ => Step::Exit,
    }
}

/// The action that a wakeup of the select loop leads to, with the woken message
/// or event itself.
pub open spec fn woken_step<M, E>(w: Wakeup<M, E>) -> Step<M, E> {
    match w {
        Wakeup::Inbox(Some(m)) => Step::HandleMessage(m),
        Wakeup::Stream(Some(e)) => Step::HandleEvent(e),
        _ => Step::CancelToken,
    }
}

/// The driver of one actor task: it decides, from what the task last did and
/// what woke it, what the task does next.
pub struct Lifecycle {
    flavor: Flavor,
    stage: Stage,
}

impl Lifecycle {
    pub closed spec fn flavor(self) -> Flavor {
        self.flavor
    }

    pub closed spec fn stage(self) -> Stage {
        self.stage
    }

    /// A task of the given flavor that has not started.
    pub fn new(flavor: Flavor) -> (l: Lifecycle)
        ensures
            l.flavor() == flavor,
            l.stage() == Stage::Fresh,
    {
        Lifecycle { flavor, stage: Stage::Fresh }
    }

    /// The stage the task stands at.
    pub fn current(&self) -> (s: Stage)
        ensures
            s == self.stage(),
    {
        self.stage
    }

    /// Reports that the last action has completed (or, for a fresh task, that it
    /// starts) and returns the next action.
    pub fn resume<M, E>(&mut self) -> (step: Step<M, E>)
        requires
            old(self).stage() != Stage::Select,
            old(self).stage() != Stage::Exit,
        ensures
            final(self).flavor() == old(self).flavor(),
            final(self).stage() == resumed(old(self).flavor(), old(self).stage()),
            step.stage() == final(self).stage(),
            step == unit_step::<M, E>(final(self).stage()),
    {
        let next = match self.stage {
            Stage::Fresh => Stage::Init,
            Stage::Init => match self.flavor {
                Flavor::Plain => Stage::Select,
                _ => Stage::CreateStream,
            },
            Stage::CreateStream => Stage::Select,
            Stage::HandleMessage => Stage::Select,
            Stage::HandleEvent => Stage::Select,
            Stage::CancelToken => Stage::CloseTracker,
            Stage::CloseTracker => Stage::WaitTracker,
            Stage::WaitTracker => Stage::OnStop,
            Stage::OnStop => match self.flavor {
                Flavor::LocalStream => Stage::SignalDone,
                _ => Stage::Exit,
            },
            Stage::SignalDone => Stage::Exit,
            Stage::Select => Stage::Select,
            Stage::Exit => Stage::Exit,
        };
        self.stage = next;
        match next {
            Stage::Init => Step::Init,
            Stage::CreateStream => Step::CreateStream,
            Stage::Select => Step::Select,
            Stage::CloseTracker => Step::CloseTracker,
            Stage::WaitTracker => Step::WaitTracker,
            Stage::OnStop => Step::OnStop,
            Stage::SignalDone => Step::SignalDone,
            _ => Step::Exit,
        }
    }

    /// Reports what woke the select loop and returns the next action: the
    /// message or event itself to handle, or the start of the shutdown.
    pub fn wake<M, E>(&mut self, w: Wakeup<M, E>) -> (step: Step<M, E>)
        requires
            old(self).stage() == Stage::Select,
            wakeup_fits(old(self).flavor(), w),
        ensures
            final(self).flavor() == old(self).flavor(),
            final(self).stage() == woken(w),
            step.stage() == final(self).stage(),
            step == woken_step(w),
            w matches Wakeup::Inbox(Some(m)) ==> step == Step::<M, E>::HandleMessage(m),
            w matches Wakeup::Stream(Some(e)) ==> step == Step::<M, E>::HandleEvent(e),
    {
        match w {
            Wakeup::Inbox(Some(m)) => {
                self.stage = Stage::HandleMessage;
                Step::HandleMessage(m)
            },
            Wakeup::Stream(Some(e)) => {
                self.stage = Stage::HandleEvent;
                Step::HandleEvent(e)
            },
            _ => {
                self.stage = Stage::CancelToken;
                Step::CancelToken
            },
        }
    }
}

/// One report to the driver: an action completed, or the select loop woke.
pub enum Input<M, E> {
    Done,
    Woke(Wakeup<M, E>),
}

/// The stage that one report leads to, or `None` where the driver does not take
/// that report (a completion while selecting or after the exit, a wakeup outside
/// the select loop, a stream wakeup for an actor without a stream).
pub open spec fn apply<M, E>(f: Flavor, s: Stage, i: Input<M, E>) -> Option<Stage> {
    match i {
        Input::Done => if s == Stage::Select || s == Stage::Exit {
            None
        } else {
            Some(resumed(f, s))
        },
        Input::Woke(w) => if s == Stage::Select && wakeup_fits(f, w) {
            Some(woken(w))
        } else {
            None
        },
    }
}

/// The stage reached and the actions issued, in order, when the reports `inputs`
/// are given to a fresh driver (reports that it does not take issue nothing).
pub open spec fn run<M, E>(f: Flavor, inputs: Seq<Input<M, E>>) -> (Stage, Seq<Stage>)
    decreases inputs.len(),
{
    if inputs.len() == 0 {
        (Stage::Fresh, Seq::empty())
    } else {
        let (s, t) = run(f, inputs.drop_last());
        match apply(f, s, inputs.last()) {
            Some(n) => (n, t.push(n)),
            None => (s, t),
        }
    }
}

/// The actions of the running actor, before its shutdown.
pub open spec fn is_loop_stage(s: Stage) -> bool {
    s == Stage::Init || s == Stage::CreateStream || s == Stage::Select || s == Stage::HandleMessage
        || s == Stage::HandleEvent
}

/// The shutdown of an actor task of the given flavor, in order.
pub open spec fn shutdown_order(f: Flavor) -> Seq<Stage> {
    match f {
        Flavor::LocalStream => seq![
            Stage::CancelToken,
            Stage::CloseTracker,
            Stage::WaitTracker,
            Stage::OnStop,
            Stage::SignalDone,
            Stage::Exit,
        ],
        _ => seq![
            Stage::CancelToken,
            Stage::CloseTracker,
            Stage::WaitTracker,
            Stage::OnStop,
            Stage::Exit,
        ],
    }
}

/// The length of the longest prefix of `t` made of loop actions.
pub open spec fn loop_prefix_len(t: Seq<Stage>) -> nat
    decreases t.len(),
{
    if t.len() == 0 {
        0
    } else if loop_prefix_len(t.drop_last()) == t.len() - 1 && is_loop_stage(t.last()) {
        t.len()
    } else {
        loop_prefix_len(t.drop_last())
    }
}

proof fn lemma_loop_prefix_bounds(t: Seq<Stage>)
    ensures
        loop_prefix_len(t) <= t.len(),
        forall|i: int| 0 <= i < loop_prefix_len(t) ==> is_loop_stage(#[trigger] t[i]),
    decreases t.len(),
{
    if t.len() > 0 {
        let d = t.drop_last();
        lemma_loop_prefix_bounds(d);
        assert forall|i: int| 0 <= i < loop_prefix_len(t) implies is_loop_stage(#[trigger] t[i]) by {
            if i < t.len() - 1 {
                assert(t[i] == d[i]);
            }
        }
    }
}

proof fn lemma_shutdown_steps(f: Flavor, j: int)
    requires
        0 <= j < shutdown_order(f).len() - 1,
    ensures
        resumed(f, shutdown_order(f)[j]) == shutdown_order(f)[j + 1],
        !is_loop_stage(shutdown_order(f)[j]),
        shutdown_order(f)[j] != Stage::Select,
        shutdown_order(f)[j] != Stage::Exit,
{
}

proof fn lemma_run_invariant<M, E>(f: Flavor, inputs: Seq<Input<M, E>>)
    ensures
        ({
            let (s, t) = run(f, inputs);
            let k = loop_prefix_len(t);
            &&& (t.len() == 0 <==> s == Stage::Fresh)
            &&& t.len() > 0 ==> t.last() == s
            &&& (is_loop_stage(s) || s == Stage::Fresh) ==> k == t.len()
            &&& !(is_loop_stage(s) || s == Stage::Fresh) ==> {
                &&& k < t.len()
                &&& t.len() - k <= shutdown_order(f).len()
                &&& t.subrange(k as int, t.len() as int) == shutdown_order(f).take(t.len() - k)
            }
            &&& t.len() > 0 ==> t[0] == Stage::Init
            &&& forall|i: int| 0 < i < t.len() ==> #[trigger] t[i] != Stage::Init
            &&& has_stream(f) && t.len() > 1 ==> t[1] == Stage::CreateStream
            &&& forall|i: int|
                0 <= i < t.len() && (i != 1 || !has_stream(f)) ==> #[trigger] t[i]
                    != Stage::CreateStream
        }),
    decreases inputs.len(),
{
    if inputs.len() > 0 {
        let prev = inputs.drop_last();
        lemma_run_invariant(f, prev);
        let (s, t) = run(f, prev);
        let k = loop_prefix_len(t);
        lemma_loop_prefix_bounds(t);
        match apply(f, s, inputs.last()) {
            None => {},
            Some(n) => {
                let t2 = t.push(n);
                assert(t2.drop_last() =~= t);
                assert(run(f, inputs) == (n, t2));
                if is_loop_stage(s) || s == Stage::Fresh {
                    assert(k == t.len());
                    if is_loop_stage(n) {
                        assert(loop_prefix_len(t2) == t2.len());
                    } else {
                        assert(n == Stage::CancelToken);
                        assert(loop_prefix_len(t2) == k);
                        assert(t2.subrange(k as int, t2.len() as int) =~= seq![n]);
                        assert(shutdown_order(f).take(1) =~= seq![Stage::CancelToken]);
                    }
                } else {
                    let j = t.len() - k - 1;
                    assert(t.subrange(k as int, t.len() as int)[j] == t.last());
                    assert(s == shutdown_order(f)[j]);
                    assert(loop_prefix_len(t2) == k);
                    if j == shutdown_order(f).len() - 1 {
                        assert(s == Stage::Exit);
                        assert(false);
                    }
                    lemma_shutdown_steps(f, j);
                    assert(n == shutdown_order(f)[j + 1]);
                    assert(t2.subrange(k as int, t2.len() as int) =~= t.subrange(
                        k as int,
                        t.len() as int,
                    ).push(n));
                    assert(shutdown_order(f).take(t2.len() - k) =~= shutdown_order(f).take(
                        t.len() - k,
                    ).push(n));
                }
                if n == Stage::Init {
                    assert(s == Stage::Fresh);
                }
                if n == Stage::CreateStream {
                    assert(s == Stage::Init);
                    assert(t.len() == 1);
                }
                if has_stream(f) && t2.len() > 1 && t.len() == 1 {
                    assert(s == Stage::Init);
                }
            },
        }
    }
}

/// The position of `on_stop` in the shutdown.
pub open spec fn on_stop_index() -> int {
    3
}

/// Law: whatever is reported to the driver, the actions it issues are the
/// running actor's loop actions followed by the flavor's shutdown, in order and
/// without gaps, as far as the task has got: once the shutdown has begun, no
/// message or event is handled again and nothing of the shutdown is skipped or
/// repeated.
pub proof fn lemma_run_shape<M, E>(f: Flavor, inputs: Seq<Input<M, E>>)
    ensures
        ({
            let t = run(f, inputs).1;
            let k = loop_prefix_len(t);
            &&& k <= t.len()
            &&& forall|i: int| 0 <= i < k ==> is_loop_stage(#[trigger] t[i])
            &&& t.len() - k <= shutdown_order(f).len()
            &&& t.subrange(k as int, t.len() as int) == shutdown_order(f).take(t.len() - k)
        }),
{
    lemma_run_invariant(f, inputs);
    let (s, t) = run(f, inputs);
    lemma_loop_prefix_bounds(t);
    if is_loop_stage(s) || s == Stage::Fresh {
        assert(t.subrange(t.len() as int, t.len() as int) =~= shutdown_order(f).take(0));
    }
}

/// Law: the actor is constructed exactly once, by the first action; an actor
/// with an event stream creates it exactly once, right after construction, and
/// an actor without one never does.
pub proof fn lemma_startup_once<M, E>(f: Flavor, inputs: Seq<Input<M, E>>)
    ensures
        ({
            let t = run(f, inputs).1;
            &&& forall|i: int| 0 <= i < t.len() ==> (#[trigger] t[i] == Stage::Init <==> i == 0)
            &&& forall|i: int|
                0 <= i < t.len() ==> (#[trigger] t[i] == Stage::CreateStream <==> (i == 1
                    && has_stream(f)))
        }),
{
    lemma_run_invariant(f, inputs);
}

/// The `n`-th action of the shutdown of flavor `f`.
pub open spec fn shutdown_at(f: Flavor, n: int) -> Stage {
    if n == 0 {
        Stage::CancelToken
    } else if n == 1 {
        Stage::CloseTracker
    } else if n == 2 {
        Stage::WaitTracker
    } else if n == 3 {
        Stage::OnStop
    } else if n == 4 {
        if signals_done(f) { Stage::SignalDone } else { Stage::Exit }
    } else {
        Stage::Exit
    }
}

proof fn lemma_shutdown_at(f: Flavor, n: int)
    requires
        0 <= n < shutdown_order(f).len(),
    ensures
        shutdown_order(f)[n] == shutdown_at(f, n),
        shutdown_order(f).len() == if signals_done(f) { 6int } else { 5int },
{
}

proof fn lemma_positions(f: Flavor, t: Seq<Stage>, k: int)
    requires
        0 <= k <= t.len(),
        t.len() - k <= shutdown_order(f).len(),
        t.subrange(k, t.len() as int) == shutdown_order(f).take(t.len() - k),
    ensures
        forall|i: int| k <= i < t.len() ==> #[trigger] t[i] == shutdown_at(f, i - k),
{
    assert forall|i: int| k <= i < t.len() implies #[trigger] t[i] == shutdown_at(f, i - k) by {
        assert(t[i] == t.subrange(k, t.len() as int)[i - k]);
        lemma_shutdown_at(f, i - k);
    }
}

/// Whether the `i`-th issued action of `t` is `s`.
pub open spec fn issued(t: Seq<Stage>, i: int, s: Stage) -> bool {
    0 <= i < t.len() && t[i] == s
}

proof fn lemma_shutdown_facts(f: Flavor, t: Seq<Stage>, k: int)
    requires
        0 <= k <= t.len(),
        forall|i: int| 0 <= i < k ==> is_loop_stage(#[trigger] t[i]),
        forall|i: int| k <= i < t.len() ==> #[trigger] t[i] == shutdown_at(f, i - k),
    ensures
        forall|i: int, j: int|
            #[trigger] issued(t, i, Stage::OnStop) && #[trigger] issued(t, j, Stage::OnStop) ==> i
                == j,
        forall|i: int|
            #[trigger] issued(t, i, Stage::OnStop) ==> {
                &&& issued(t, i - on_stop_index(), Stage::CancelToken)
                &&& issued(t, i - 1, Stage::WaitTracker)
            },
        forall|i: int, j: int|
            #![trigger issued(t, i, Stage::CancelToken), t[j]]
            i < j && issued(t, i, Stage::CancelToken) ==> !issued(t, j, Stage::HandleMessage)
                && !issued(t, j, Stage::HandleEvent),
{
    assert forall|i: int, j: int|
        #[trigger] issued(t, i, Stage::OnStop) && #[trigger] issued(t, j, Stage::OnStop) implies i
        == j by {
        if i < k {
            assert(is_loop_stage(t[i]));
        }
        if j < k {
            assert(is_loop_stage(t[j]));
        }
        assert(t[i] == shutdown_at(f, i - k));
        assert(t[j] == shutdown_at(f, j - k));
    }
    assert forall|i: int| #[trigger] issued(t, i, Stage::OnStop) implies {
        &&& issued(t, i - on_stop_index(), Stage::CancelToken)
        &&& issued(t, i - 1, Stage::WaitTracker)
    } by {
        if i < k {
            assert(is_loop_stage(t[i]));
        }
        assert(t[i] == shutdown_at(f, i - k));
        assert(i - k == on_stop_index());
        assert(t[k] == shutdown_at(f, 0));
        assert(t[i - 1] == shutdown_at(f, i - 1 - k));
    }
    assert forall|i: int, j: int|
        #![trigger issued(t, i, Stage::CancelToken), t[j]]
        i < j && issued(t, i, Stage::CancelToken) implies !issued(t, j, Stage::HandleMessage)
        && !issued(t, j, Stage::HandleEvent) by {
        if i < k {
            assert(is_loop_stage(t[i]));
        }
        if j < t.len() {
            assert(t[j] == shutdown_at(f, j - k));
        }
    }
}

/// Law: `on_stop` runs at most once; the token is cancelled before it, as the
/// first action of the shutdown, and every tracked task has been waited for
/// right before it; after the token is
/// cancelled no message or event is handled.
pub proof fn lemma_on_stop_after_shutdown<M, E>(f: Flavor, inputs: Seq<Input<M, E>>)
    ensures
        ({
            let t = run(f, inputs).1;
            &&& forall|i: int, j: int|
                #[trigger] issued(t, i, Stage::OnStop) && #[trigger] issued(t, j, Stage::OnStop)
                    ==> i == j
            &&& forall|i: int|
                #[trigger] issued(t, i, Stage::OnStop) ==> {
                    &&& issued(t, i - on_stop_index(), Stage::CancelToken)
                    &&& issued(t, i - 1, Stage::WaitTracker)
                }
            &&& forall|i: int, j: int|
                #![trigger issued(t, i, Stage::CancelToken), t[j]]
                i < j && issued(t, i, Stage::CancelToken) ==> !issued(t, j, Stage::HandleMessage)
                    && !issued(t, j, Stage::HandleEvent)
        }),
{
    lemma_run_shape(f, inputs);
    let t = run(f, inputs).1;
    let k = loop_prefix_len(t) as int;
    lemma_positions(f, t, k);
    lemma_shutdown_facts(f, t, k);
}

proof fn lemma_run_push<M, E>(f: Flavor, inputs: Seq<Input<M, E>>, x: Input<M, E>)
    ensures
        run(f, inputs.push(x)) == (match apply(f, run(f, inputs).0, x) {
            Some(n) => (n, run(f, inputs).1.push(n)),
            None => run(f, inputs),
        }),
{
    assert(inputs.push(x).drop_last() =~= inputs);
}

/// `k` completion reports.
pub open spec fn dones<M, E>(k: nat) -> Seq<Input<M, E>> {
    Seq::new(k, |i: int| Input::Done)
}

proof fn lemma_dones<M, E>(f: Flavor, inputs: Seq<Input<M, E>>, j: int, k: nat)
    requires
        0 <= j,
        j + k < shutdown_order(f).len(),
        run(f, inputs).0 == shutdown_order(f)[j],
    ensures
        run(f, inputs + dones::<M, E>(k)).0 == shutdown_order(f)[j + k],
        run(f, inputs + dones::<M, E>(k)).1 == run(f, inputs).1 + shutdown_order(f).subrange(
            j + 1,
            j + k + 1,
        ),
    decreases k,
{
    if k == 0 {
        assert(inputs + dones::<M, E>(0) =~= inputs);
        assert(run(f, inputs).1 + shutdown_order(f).subrange(j + 1, j + 1) =~= run(f, inputs).1);
    } else {
        let k1 = (k - 1) as nat;
        lemma_dones(f, inputs, j, k1);
        let prev = inputs + dones::<M, E>(k1);
        assert(inputs + dones::<M, E>(k) =~= prev.push(Input::Done));
        lemma_run_push(f, prev, Input::Done);
        lemma_shutdown_steps(f, j + k1);
        assert(run(f, inputs).1 + shutdown_order(f).subrange(j + 1, j + k + 1) =~= (run(f, inputs).1
            + shutdown_order(f).subrange(j + 1, j + k1 + 1)).push(shutdown_order(f)[j + k]));
    }
}

/// Law: from the select loop, a wakeup that ends the loop (cancellation, a closed
/// inbox, an exhausted stream) followed by the completion of each action carries
/// the task through its whole shutdown to the exit, with no further wakeup
/// needed.
pub proof fn lemma_shutdown_completes<M, E>(f: Flavor, inputs: Seq<Input<M, E>>, w: Wakeup<M, E>)
    requires
        run(f, inputs).0 == Stage::Select,
        woken(w) == Stage::CancelToken,
        wakeup_fits(f, w),
    ensures
        ({
            let all = inputs.push(Input::Woke(w)) + dones::<M, E>(
                (shutdown_order(f).len() - 1) as nat,
            );
            &&& run(f, all).0 == Stage::Exit
            &&& run(f, all).1 == run(f, inputs).1 + shutdown_order(f)
        }),
{
    let order = shutdown_order(f);
    let i1 = inputs.push(Input::Woke(w));
    lemma_run_push(f, inputs, Input::Woke(w));
    assert(run(f, i1).0 == order[0]);
    let k = (order.len() - 1) as nat;
    lemma_dones(f, i1, 0, k);
    assert(run(f, inputs).1.push(order[0]) + order.subrange(1, k + 1int) =~= run(f, inputs).1 + order);
}

/// The action that one report leads to, with its payload, or `None` where the
/// driver does not take that report.
pub open spec fn next_step<M, E>(f: Flavor, s: Stage, i: Input<M, E>) -> Option<Step<M, E>> {
    match apply(f, s, i) {
        None => None,
        Some(n) => match i {
            Input::Woke(w) => Some(woken_step(w)),
            Input::Done => Some(unit_step(n)),
        },
    }
}

/// The actions issued, with their payloads, when the reports `inputs` are given
/// to a fresh driver.
pub open spec fn run_steps<M, E>(f: Flavor, inputs: Seq<Input<M, E>>) -> Seq<Step<M, E>>
    decreases inputs.len(),
{
    if inputs.len() == 0 {
        Seq::empty()
    } else {
        let prev = inputs.drop_last();
        match next_step(f, run(f, prev).0, inputs.last()) {
            Some(st) => run_steps(f, prev).push(st),
            None => run_steps(f, prev),
        }
    }
}

/// The messages that the select loop took from the inbox, in the order taken.
pub open spec fn received_messages<M, E>(f: Flavor, inputs: Seq<Input<M, E>>) -> Seq<M>
    decreases inputs.len(),
{
    if inputs.len() == 0 {
        Seq::empty()
    } else {
        let prev = inputs.drop_last();
        let r = received_messages(f, prev);
        match inputs.last() {
            Input::Woke(Wakeup::Inbox(Some(m))) => if run(f, prev).0 == Stage::Select {
                r.push(m)
            } else {
                r
            },
            _ => r,
        }
    }
}

/// The events that the select loop took from the stream, in the order taken.
pub open spec fn received_events<M, E>(f: Flavor, inputs: Seq<Input<M, E>>) -> Seq<E>
    decreases inputs.len(),
{
    if inputs.len() == 0 {
        Seq::empty()
    } else {
        let prev = inputs.drop_last();
        let r = received_events(f, prev);
        match inputs.last() {
            Input::Woke(Wakeup::Stream(Some(e))) => if run(f, prev).0 == Stage::Select
                && has_stream(f) {
                r.push(e)
            } else {
                r
            },
            _ => r,
        }
    }
}

/// The messages handed to `handle_message` by the actions `steps`, in order.
pub open spec fn handled_messages<M, E>(steps: Seq<Step<M, E>>) -> Seq<M>
    decreases steps.len(),
{
    if steps.len() == 0 {
        Seq::empty()
    } else {
        let r = handled_messages(steps.drop_last());
        match steps.last() {
            Step::HandleMessage(m) => r.push(m),
            _ => r,
        }
    }
}

/// The events handed to `handle_event` by the actions `steps`, in order.
pub open spec fn handled_events<M, E>(steps: Seq<Step<M, E>>) -> Seq<E>
    decreases steps.len(),
{
    if steps.len() == 0 {
        Seq::empty()
    } else {
        let r = handled_events(steps.drop_last());
        match steps.last() {
            Step::HandleEvent(e) => r.push(e),
            _ => r,
        }
    }
}

proof fn lemma_resumed_not_handler(f: Flavor, s: Stage)
    ensures
        resumed(f, s) != Stage::HandleMessage,
        resumed(f, s) != Stage::HandleEvent,
        resumed(f, s) != Stage::Fresh,
        unit_step::<(), ()>(resumed(f, s)).stage() == resumed(f, s),
{
}

/// Law: the actions issued carry, in order, exactly the stages of the run; and
/// every message (event) that the select loop takes is handed to
/// `handle_message` (`handle_event`) exactly once, unchanged, in the order taken,
/// and nothing else is.
pub proof fn lemma_each_delivery_handled_once_in_order<M, E>(f: Flavor, inputs: Seq<Input<M, E>>)
    ensures
        run_steps(f, inputs).len() == run(f, inputs).1.len(),
        forall|i: int|
            0 <= i < run(f, inputs).1.len() ==> #[trigger] run_steps(f, inputs)[i].stage() == run(
                f,
                inputs,
            ).1[i],
        handled_messages(run_steps(f, inputs)) == received_messages(f, inputs),
        handled_events(run_steps(f, inputs)) == received_events(f, inputs),
    decreases inputs.len(),
{
    if inputs.len() > 0 {
        let prev = inputs.drop_last();
        let x = inputs.last();
        lemma_each_delivery_handled_once_in_order(f, prev);
        let s = run(f, prev).0;
        let steps = run_steps(f, prev);
        let t = run(f, prev).1;
        lemma_resumed_not_handler(f, s);
        match next_step(f, s, x) {
            None => {},
            Some(st) => {
                let steps2 = steps.push(st);
                assert(steps2.drop_last() =~= steps);
                let n = apply(f, s, x)->Some_0;
                assert(run(f, inputs).1 == t.push(n));
                assert(st.stage() == n) by {
                    if x is Done {
                        assert(n == resumed(f, s));
                        match n {
                            Stage::Init => {},
                            Stage::CreateStream => {},
                            Stage::Select => {},
                            Stage::CancelToken => {},
                            Stage::CloseTracker => {},
                            Stage::WaitTracker => {},
                            Stage::OnStop => {},
                            Stage::SignalDone => {},
                            Stage::Exit => {},
                            _ => {},
                        }
                    }
                }
                assert forall|i: int| 0 <= i < run(f, inputs).1.len() implies #[trigger] run_steps(
                    f,
                    inputs,
                )[i].stage() == run(f, inputs).1[i] by {
                    if i < t.len() {
                        assert(run_steps(f, inputs)[i] == steps[i]);
                    }
                }
            },
        }
    }
}

proof fn lemma_last_is_stage<M, E>(f: Flavor, inputs: Seq<Input<M, E>>)
    ensures
        run(f, inputs).1.len() > 0 ==> run(f, inputs).1.last() == run(f, inputs).0,
{
    lemma_run_invariant(f, inputs);
}

/// Law: the actor never runs two handlers at once: a handled message or event is
/// followed by the return to the select loop before anything else is issued.
pub proof fn lemma_one_handler_at_a_time<M, E>(f: Flavor, inputs: Seq<Input<M, E>>)
    ensures
        forall|i: int|
            0 <= i < run(f, inputs).1.len() - 1 && (#[trigger] run(f, inputs).1[i]
                == Stage::HandleMessage || run(f, inputs).1[i] == Stage::HandleEvent) ==> run(
                f,
                inputs,
            ).1[i + 1] == Stage::Select,
    decreases inputs.len(),
{
    if inputs.len() > 0 {
        let prev = inputs.drop_last();
        lemma_one_handler_at_a_time(f, prev);
        lemma_last_is_stage(f, prev);
        let (s, t) = run(f, prev);
        match apply(f, s, inputs.last()) {
            None => {},
            Some(n) => {
                let t2 = t.push(n);
                assert(run(f, inputs).1 == t2);
                assert forall|i: int|
                    0 <= i < t2.len() - 1 && (#[trigger] t2[i] == Stage::HandleMessage || t2[i]
                        == Stage::HandleEvent) implies t2[i + 1] == Stage::Select by {
                    if i == t.len() - 1 {
                        assert(t[i] == s);
                        assert(n == Stage::Select);
                    } else {
                        assert(t2[i] == t[i]);
                        assert(t2[i + 1] == t[i + 1]);
                    }
                }
            },
        }
    }
}

} // verus!
