# agent_jam

Ternary multi-agent collaboration as a discrete-time system: agents emit
decisions in {-1, 0, +1}, improv rules derive new decisions from old ones,
consensus strategies mix them, and a work session ticks a timer, advances
task phases, records harmony counters and keeps the history of results.

- `src/` is the library, with its proofs: one module per concept
  (`trit`, `rule`, `collaborator`, `progression`, `sync`, `consensus`,
  `harmony`, `session`). Each public function states its exact result in
  its contract; proof functions state the laws that span calls (sprint
  periodicity, phase wrapping, queue replay, session history, pair counts).
- `app/` holds the floating-point ratios (sprint fraction, tension,
  cohesion, novelty, productivity, resolution rate) as extension traits.
- `tests/` exercises the library on concrete values.
