//! Bootstrap entity-component registry, shared with the film client decoder.
pub use crate::clients::hi::film::{decode_registry, FilmArchetype, FilmRegistry};
