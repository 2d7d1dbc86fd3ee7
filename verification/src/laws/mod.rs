//! What the operations of the deck are for, stated of their results.
//!
//! Each law speaks of whatever a function may return for given arguments, in
//! terms of the arguments and of the fields of the result.
pub mod catalog;
pub mod fit;
pub mod fitplan;
pub mod gguf;
pub mod grid;
pub mod importing;
pub mod install;
pub mod inventory;
pub mod labels;
pub mod launch;
pub mod listing;
pub mod machine;
pub mod numbers;
pub mod outcomes;
pub mod passes;
pub mod plan;
pub mod ranking;
pub mod records;
pub mod relevance;
pub mod remarks;
pub mod run;
pub mod runtimes;
pub mod serving;
pub mod storage;
pub mod text;
pub mod trials;
pub mod wiring;
pub mod writing;
