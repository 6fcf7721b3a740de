//! Core of a small newsroom content-management backend: an admin
//! authorization guard over an external identity provider, an image
//! ingestion/transcoding/retrieval pipeline, and a paginated post listing
//! over an in-memory media store.

pub mod auth;
pub mod codec;
pub mod endpoints;
pub mod models;
pub mod store;
