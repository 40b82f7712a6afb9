//! The typed index families known to the system.

pub mod deprecate;

pub use deprecate::Deprecate;
