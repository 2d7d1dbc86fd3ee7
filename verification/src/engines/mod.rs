//! Engine control: what the deck decides about running engines.
pub mod autotune;
pub mod backup;
pub mod boots;
pub mod compare;
pub mod discover;
pub mod evaluation;
pub mod external;
pub mod grid;
pub mod health;
pub mod inference;
pub mod install;
pub mod matrix;
pub mod reimport;
pub mod rewire;
pub mod runner;
pub mod scoring;
pub mod service_ops;
pub mod status;
pub mod swap;
pub mod swap_ops;
pub mod systemd;
pub mod turns;
pub mod unit;
pub mod unmanaged;
pub mod workflow;
