# aleph-bft

The unit handling of a node in a BFT consensus, verified with Verus.

- `src/` is the library. `Runway` (`runway.rs`) is told of events and answers with the actions that
  follow; `model.rs` says what it does as functions from a state and an event to the next state and
  the actions. `Run` (`run.rs`) keeps the order in which a node starts, handles events and performs
  actions. `store.rs`, `units.rs`, `nodes.rs` and `messages.rs` hold the data, `traits.rs` what
  users provide. `faults.rs` names the reasons for which units and answers are refused.
  `life.rs` says which steps a node makes and `actions.rs` what actions say; `step_laws.rs`,
  `run_laws.rs`, `start_laws.rs`, `request_laws.rs` and `unit_laws.rs` state and prove what holds over
  several steps. `skeleton.rs` is the skeleton of the consensus itself: the terminal, the extender
  and the units that they work on.
- `app/` connects the library to channels, timers and tasks.
- `tests/` runs the library.
