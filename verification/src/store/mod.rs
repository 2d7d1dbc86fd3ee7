//! What the store keeps, and the rules by which it changes. The database
//! itself is behind the functions that call these.
pub mod agents;
pub mod bench;
pub mod engine_bin;
pub mod index;
pub mod profiles;
pub mod releases;
pub mod residents;
pub mod sessions;
pub mod settings;
