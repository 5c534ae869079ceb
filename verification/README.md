# resonant

A membership kernel for coordinated belief under weak coordination:
scoped belief cells with an explicit state machine, witness evidence and
trust, deterministic reunion of partitioned views that keeps unresolved
disagreement visible as residue, accountable permutation rank, repair
digests, and a hash-chained transcript that replays.

The library's functions are verified with Verus against contracts stated
over mathematical models (`Seq`, `Map`, spec functions and views). The
exceptions are the four trusted items in `hash.rs`, whose contracts state
what the outside `blake3` crate guarantees and are not proved here.

## Layout

- `src/` — the verified library.
  - `belief/`, `evidence.rs`, `witnessing.rs`, `trust.rs`, `policy.rs`:
    scoped belief, evidence, witness summaries and the advancement gate,
    trust grades and trust-root standing.
  - `merge/`, `residue.rs`, `operator.rs`: the merge calculus, the
    deterministic reunion engine, the residue ledger, visible overrides.
  - `kernel.rs`, `transcript.rs`, `digest.rs`, `rank.rs`: the sans-IO
    driver, the sealed transcript and replay, repair digests, permutation
    rank and its reconstruction.
  - `lab/`: the scenario model, divergence replay, the reference merge
    oracle, the golden table, kernel/oracle conformance, the seeded
    simulator, the story theater, and the console reports.
  - `net/`: wire envelopes and the decisions, command lines and rendered
    rows of the chat node, the blocklist daemon and the three-pane console.
  - `hash.rs`: the BLAKE3 boundary (the only calls into an outside crate).
- `tests/`: executable tests of the library on concrete values.
- `app/`: the `resonant` command line (scenario corpus, rank, simulator,
  theater), which reads files and prints what the library computes.
