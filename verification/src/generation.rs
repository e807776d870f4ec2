//! Whole Binary DB generations: what a capture copies and computes, the
//! content closure rules a generation must meet, the u32-to-u64 time
//! widening of predecessor records, and the checks and decisions of an
//! activation.

pub mod closure;
pub mod upgrade;
pub mod manifest;
pub mod indexes;
pub mod paths;
pub mod capture;
pub mod content_closure;
pub mod activation;
pub mod pack_refs;
pub mod tree_identity;
pub mod batches;
pub mod inventory;
pub mod activation_flow;
pub mod upgrade_plan;
pub mod repack;
