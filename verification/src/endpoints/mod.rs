//! Halo Waypoint endpoint locations.
pub mod constants;

pub use constants::HaloEndpoints;
