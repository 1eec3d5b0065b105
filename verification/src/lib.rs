//! Core logic of the conga agent framework: session stores, configuration
//! layering, gateway authentication, retrieval helpers and provider routing,
//! each stated and proved against a mathematical model.

pub mod session_id;
pub mod paths;
pub mod jsonl;
pub mod decimal;
pub mod storage;
pub mod config_file;
pub mod text;
pub mod auth;
pub mod tool;
pub mod name_map;
pub mod rag_config;
pub mod errors;
pub mod agent;
pub mod ext;
pub mod sessions;
pub mod embed;
pub mod ingest;
pub mod ingest_run;
pub mod gateway;
pub mod assembly;
pub mod clock;
pub mod event_store;
pub mod providers;
pub mod rig_convert;
pub mod rag_store;

pub use clock::now;
