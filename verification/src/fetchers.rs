//! The pluggable probe units and their registry.

pub mod hostname;
pub mod mac;
pub mod ping;
pub mod ports;
pub mod registry;
pub mod traits;
