//! The Halo Infinite API: models, film decoding and request planning.
pub mod client;
pub mod endpoints;
pub mod film;
pub mod models;
pub mod pager;
pub mod rate_limit;
