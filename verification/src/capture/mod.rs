//! Running child commands.
pub mod executor;
