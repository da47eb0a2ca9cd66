//! Types of the Teams services' responses and request building.

pub mod client;
pub mod csa;
pub mod types;
