//! The plugins built into the host: what of them the library decides.
pub mod eq;
pub mod recent;
pub mod lyrics;
