# stream_combinators

Stream combinators for `futures` 0.1 (`distinct`, `scan2`, `scan3`,
`combine_latest`, `with_latest_from`, `fork`, `delay`, and the future combinator
`value`), written as verified state machines.

- `src/` is the library, verified with Verus. Each combinator is a state machine that
  is handed the outcome of polling its upstream source(s) and decides what the poll
  returns; its contract says exactly how. Proof functions state the laws across
  polls: `scan3` yields the running fold, `scan2` threads its accumulator, `distinct`
  passes on exactly what its predicate keeps and is idempotent, `delay` hands events
  out in arrival order, `with_latest_from` pairs each first-source item at most once
  and in order, `combine_latest` is symmetric in its sources.
- The timers of `delay` and the channel of `fork` stay outside the verified code's
  control: `delay`'s owner polls the front timer and hands the outcome back, and
  `fork` keeps records of what it offered to and queued on its channel.
- `app/` wraps the state machines as `futures::Stream`/`Future` implementations with
  the usual extension traits; it does the polling of the upstream sources.
- `tests/` drives the state machines with poll outcomes.
