# layer_differential

A layer engine for a trading card game, in verified Rust, with a harness that holds its
incremental flush to a full evaluation.

Continuous effects are evaluated over the whole board. When objects enter the battlefield,
the engine may derive only them and the objects they are attached to, as long as an
escalation gate finds that nothing else can change. The harness copies the board before
such a flush, evaluates the copy in full, and compares the two boards field by field.

The continuous effects that the layers know add to power and toughness. Such effects can be
applied in any order, so nothing proved of a flush speaks of effects whose order matters.
The comparison does not depend on that: it takes lists in their order.

- `src/differential.rs`: snapshots, the comparison, its report
- `src/layers.rs`: evaluation, the escalation gate, the flush
- `src/game_state.rs`, `src/game_object.rs`, `src/object_table.rs`, `src/vocabulary.rs`,
  `src/identifiers.rs`, `src/events.rs`: what the layers read and write
- `src/zones.rs`, `src/pairing.rs`, `src/phasing.rs`: changes that leave something owed to
  the layers
- `src/perf_counters.rs`: how flushes were done, and what made them necessary
- `src/text.rs`: the texts under which values are compared and reported
- `src/*_laws.rs`: what holds of all this as a whole, above all that an incremental flush
  gives the board that a full evaluation gives
- `app/`: the harness and the counters of the current thread
