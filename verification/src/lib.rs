//! Verified core of the content Binary DB: fixed-size record codecs,
//! identifier formatting, generation capture, content-closure validation,
//! record widening, activation decisions, the read surface's checks and
//! tree-payload normal form, and the JSON normalizers used by the change and
//! runtime-config surfaces.

pub mod error;
pub mod schema;
pub mod text;
pub mod binary_db;
pub mod ids;
pub mod digest;
pub mod generation;
pub mod json;
pub mod stores;
pub mod change_json;
pub mod config_runtime;
pub mod change_store;
pub mod read;
pub mod local_support;
pub mod tree_payload;
pub mod surface;
