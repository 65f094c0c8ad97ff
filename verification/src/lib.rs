//! Halo Infinite API models and Theater film decoders: CSR and service-record
//! models, URL builders, and bit-level decoders for recorded films.
pub mod clients;
pub mod constants;
pub mod endpoints;
pub mod models;
pub mod text;
pub mod theater;
