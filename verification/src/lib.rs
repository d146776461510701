//! Verified building blocks of a smart-contract host: coin collections,
//! contract storage helpers and the multi-tier module cache.

pub mod addresses;
pub mod cache;
pub mod checksum;
pub mod coin;
pub mod coins;
pub mod errors;
pub mod json;
pub mod laws;
pub mod math;
pub mod memory_tier;
pub mod options;
pub mod pinned_tier;
pub mod slots;
pub mod state;
pub mod stats;
pub mod storage;
pub mod text;
pub mod validation;
