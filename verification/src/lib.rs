//! A deterministic batch execution engine: transactions run one at a time
//! against a key-value world state, every state access is recorded, and a
//! batch can be checkpointed and rolled back.
//!
//! - [`storage`]: the storage oracle, whose access log is its whole model.
//! - [`dedup`]: from the access log to the net effect on each slot.
//! - [`events`]: the event sink and the reconciliation of reverted frames.
//! - [`transaction`], [`bootloader`]: transactions and their sequencing.
//! - [`state`]: the call stack and the interpreter.
//! - [`tracer`], [`call_trace`], [`debug`]: observers and the traces shown to
//!   users.
//! - [`results`]: what the engine hands back.
//! - [`vm`]: the instance that executes one batch, with its snapshots.
//! - [`laws`], [`invariants`], [`untouched`]: what holds across operations.

pub mod bootloader;
pub mod call_trace;
pub mod debug;
pub mod dedup;
pub mod events;
pub mod invariants;
pub mod laws;
pub mod results;
pub mod state;
pub mod storage;
pub mod tracer;
pub mod transaction;
pub mod untouched;
pub mod vm;
