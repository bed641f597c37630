# algeff-core

An algebra of effects. A program is written as a blueprint: a value that says
which operations are to run, in which order, in which branches, within which time,
and what follows when something fails. A machine runs blueprints step by step and
asks a driver for all outside work. Every effect is recorded together with what
undoes it.

- `src/` is the library, verified with Verus. `semantics.rs` says what one step of
  the machine does, `interpreter.rs` is the machine, and `laws.rs` and `runs.rs`
  state what holds of every run. The other modules hold what the machine works on: resources and
  their linear use, the undo stack, costs, idempotency keys, forks, the virtual
  clock, and the dependencies of components. `sugar.rs` is a notation for
  blueprints.
- `tests/` runs the library; `execution.rs` holds a driver with simulated time.
- `app/` is a driver on tokio, with the trait that executors implement.
