//! Verified core of a local-model control deck.
pub mod dedup;
pub mod engines;
pub mod fit;
pub mod fitplan;
pub mod gguf;
pub mod hardware;
pub mod importer;
pub mod json;
pub mod laws;
pub mod library;
pub mod measure;
pub mod model;
pub mod numeral;
pub mod opencode_sync;
pub mod order;
pub mod params;
pub mod paths;
pub mod profile;
pub mod recommend;
pub mod relevance;
pub mod runtime;
pub mod runtime_registry;
pub mod safetensors;
pub mod scanner;
pub mod storage;
pub mod store;
pub mod text;
pub mod wfstore;
pub mod workflow;
pub mod workload;
