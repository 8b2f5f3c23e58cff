//! A minimal notes service: a single `note` entity (id, title, text) with
//! create, read, update, delete and list operations, the JSON wire format
//! of its records, and the translation of operation outcomes into HTTP
//! replies. The store semantics, the codec and the handler logic are
//! verified; the process around them (HTTP listener, pooled database
//! connections) lives outside this library and hands it plain values.

pub mod models;
pub mod service;
pub mod text;
pub mod json;
pub mod router;
