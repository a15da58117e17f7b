//! Configuration: layered settings resolved by precedence.
pub mod settings;
