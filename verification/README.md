# freshet

A resumable, permissionless, shardable MapReduce over Solana accounts, written in
Verus: one logical effect is split into crank batches that anyone may run, with a
monotonic cursor per shard and a per-member epoch stamp for exactly-once processing.

## Layout

- `src/partition.rs`: the member-to-shard partition and its tiling laws.
- `src/monoid.rs`: the REDUCE accumulator (`Sum`, `MaxWinner`), the monoid laws, and
  shard-count invariance of a sharded reduce.
- `src/state.rs`, `src/machine.rs`: the transition guards and the executable state
  machine, with its invariant, per-operation preservation lemmas, exactly-once coverage
  and liveness.
- `src/bytes.rs`: little-endian reads and writes on byte buffers.
- `src/program/`: the on-chain settler. Handlers work on account snapshots and are
  specified byte for byte by `*_spec` functions; program-derived addresses are checked
  in place through one trusted derivation call.
- `src/royale.rs`: a battle-royale consumer; a permissionless sweep eliminates every
  player who did not act in the round.
- `app/`: the Solana entry points: snapshot the accounts, run the dispatcher, write
  back. The crate registers the settler's entrypoint; the royale's entry is deployed as
  a program of its own.
