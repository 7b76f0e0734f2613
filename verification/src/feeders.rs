//! Producers of target addresses for one scan pass.

pub mod range;
pub mod traits;
