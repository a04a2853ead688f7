//! freshet: a resumable, permissionless, shardable MapReduce over an account set.
//!
//! One logical effect is split into crank batches that anyone may run, in up to two
//! phases: REDUCE folds every member into a commutative-monoid accumulator, MAP applies
//! the result to every member. Exactly-once is kept by a monotonic cursor within an
//! epoch and a per-member epoch stamp across re-runs.
//!
//! - [`partition`]: the deterministic member-to-shard partition.
//! - [`monoid`]: the REDUCE accumulator and its byte window.
//! - [`state`]: the transition guards and the executable state machine.
//! - [`program`]: the on-chain settler's instruction handlers over account snapshots.
//! - [`royale`]: a battle-royale consumer of the guards.
pub mod bytes;
pub mod monoid;
pub mod partition;
pub mod program;
pub mod royale;
pub mod machine;
pub mod state;
