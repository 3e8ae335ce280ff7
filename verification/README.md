# stagecraft

A minimal tokio actor framework whose decisions are verified with Verus.

- `src/` is the verified library:
  - `mailbox`: the `HasMailbox` trait (message type, inbox capacity, 128 by default);
  - `handle`: `Handle` (the sending end of an actor's inbox), `ActorDead`, the opening
    of an inbox, and what a cast or a call reports for each delivery outcome;
  - `lifecycle`: the driver of an actor task (construction, stream creation, the
    select loop, the shutdown) with its laws over every sequence of reports;
  - `message`: the planning of the helper trait that `#[message(Actor)]` generates
    for a message enum, with its laws.
- `app/` runs the actor tasks on tokio (the actor traits, `Context`, `spawn`, the async
  `cast`/`call`) and expands the `message` attribute from `syn` syntax. The lifecycle
  decisions, delivery outcomes and message plans come from the library; the wiring of
  tokens, trackers and the handle that each `Context` keeps is the app's.
- `tests/` exercises the library on concrete values.
