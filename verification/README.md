# spx

A Multi-Paxos group member (pre-vote, vote, accept, leader leases on TrueTime, commit
wait, MinNextTS) whose decisions are a state machine verified with Verus.

- `src/` is the verified library. `state_machine::PaxosState::process_event` takes the
  member's role, an event and the current TrueTime interval, and returns the next role;
  it updates the shared context (`context`) and lists the work the runtime has to do
  (`event::PaxosAction`). The roles live in `roles/`; the write-ahead log in `wal` (on
  `slot_log`); the count-down clock, worker lifecycle, leader bookkeeping on a
  `dashmap::DashMap` (`states`) and message texts in their own modules.
- `app/` is the tokio runtime around it: the event loop, timers, the dispatcher trait
  that sends requests over the network, commit wait, and the worker runner.
- `tests/` runs the library on concrete scenarios.
