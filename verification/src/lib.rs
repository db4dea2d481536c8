//! Per-day pattern counters: the data model, its stored encoding, the
//! day-keyed store, the upgrade from the two-counter layout, the
//! normalization of write requests and the shared-secret gate.

pub mod clock;
pub mod codec;
pub mod config;
pub mod gate;
pub mod ingest;
pub mod keyed;
pub mod migrate;
pub mod pageview;
pub mod patterns;
pub mod record;
pub mod service;
pub mod store;
pub mod text;
