//! A compressed, metadata-rich key-value store with a Bloom-filter existence
//! index, hot/cold zones, delta logs and running storage statistics.

pub mod bloom;
pub mod hash;
pub mod index;
pub mod laws;
pub mod model;
pub mod records;
pub mod stats;
pub mod store;
pub mod types;
pub mod vault;
