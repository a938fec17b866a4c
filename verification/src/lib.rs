//! Core of a directed, coverage-guided greybox fuzzer: the rules by which
//! runs are classified, conditions are queued and ranked, and the observed
//! control-flow graph is scored, stated as contracts and proved.
//!
//! The library runs nothing itself. Its caller runs the target, reads the
//! shared memory and the sockets, and tells the library what happened; the
//! library says what that means and what to do next.

pub mod branches;
pub mod cfg;
pub mod command;
pub mod cond_stmt;
pub mod defs;
pub mod depot;
pub mod distance;
pub mod executor;
pub mod forksrv;
pub mod func_rel;
pub mod orchestrate;
pub mod qpriority;
pub mod queue;
pub mod report;
pub mod seqs;
pub mod stats;
pub mod status;
pub mod text;
pub mod track;
