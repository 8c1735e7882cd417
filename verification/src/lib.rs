//! A schema-governed, relational object store with a declarative API.
//!
//! Clients register resource definitions — a kind, an api_version, a
//! JSON-Schema text and declarative foreign-key constraints — and then
//! apply untyped documents against them. An apply normalizes the raw
//! document to a flat object list, validates every object's spec
//! against its registered schema, resolves the declared references,
//! upserts the batch with stable identities, and reconciles the
//! relation table, all as one transaction over the store.
//!
//! Every operation's behaviour is fixed by its contract; the laws
//! module states and proves the properties that hold across calls.
pub mod apply_impl;
pub mod backend;
pub mod data_models;
pub mod error;
pub mod json;
pub mod laws;
pub mod models;
pub mod outside;
pub mod queries;
pub mod render;
pub mod text;

pub use json::{Jv, JsonVal};
