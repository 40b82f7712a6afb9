//! Inventory and retirement of time-partitioned search-engine indices whose
//! names carry a base identifier and a creation date (`name-YYYY.MM.DD`).
//!
//! The crate models dated index identifiers, parses them from raw catalog
//! strings, filters them by base name and age, sorts and deduplicates them,
//! and clamps deletion boundaries to a configured retention floor.

pub mod cmdprocessor;
pub mod cmds;
pub mod config;
pub mod constants;
pub mod dates;
pub mod digits;
pub mod elastic;
pub mod elasticrud;
pub mod errors;
pub mod index;
pub mod indexparser;
pub mod indices;
pub mod rawindex;
pub mod sorting;
pub mod traits;
