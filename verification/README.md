# firefly_orchestration

Distributed transactions and plugins: sagas, workflows (graphs of nodes) and
try-confirm-cancel transactions, with retries, compensation, recovery, dead
letters, signals, schedules and an event gateway; and a registry and a manager
of plugins with their extensions.

- `src/` is the library, verified by Verus. The engines are state machines:
  they say which step, node or participant is due, and take what came of it.
  Contracts speak of the views of the data (`StepContext@`, `ExecutionState@`,
  `Value::model()`), and the public proof functions named `law_...` state what
  holds across several calls.
- `app/` is ordinary Rust around it: it runs the callbacks, sleeps, stores
  states in memory or in SQLite, serves the HTTP routes, and holds the copies of
  types that can be serialised.
- `tests/` runs the library.

Callbacks, handlers and hooks are numbers to the library; `app/` keeps what
they stand for. The functions whose names end in `_at` and `_as` take the
present instant or a fresh id as an argument; those without the ending read the
clock or draw the id themselves.
