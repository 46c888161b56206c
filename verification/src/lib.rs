//! Execution core of an actor-style language runtime: a tagged-term data
//! model, a per-process heap allocator with a two-tier binary strategy, a
//! structured exception model, a code-table dispatch mechanism, and a
//! reduction-counted cooperative scheduler driving native continuation
//! frames.

pub mod apply_3;
pub mod bigint;
pub mod code;
pub mod etf;
pub mod exception;
pub mod export;
pub mod heap;
pub mod natives;
pub mod proc;
pub mod scheduler;
pub mod term;
pub mod time;
pub mod vm;
