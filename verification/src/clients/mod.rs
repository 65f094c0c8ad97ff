//! Halo Infinite service clients; only their data and decoding logic live here.
pub mod hi;
