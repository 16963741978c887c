//! A multi-tenant document store: tenant namespacing and authentication,
//! an ordered document storage engine with range scans and JSONPath-style
//! filtering, per-collection publish/subscribe, a backup/restore lifecycle,
//! and a bulk import pipeline.

pub mod api;
pub mod backup;
pub mod events;
pub mod hash;
pub mod idgen;
pub mod import;
pub mod json;
pub mod jsonpath;
pub mod jsontext;
pub mod laws;
pub mod numtext;
pub mod pubsub;
pub mod records;
pub mod store;
pub mod strutil;
pub mod table;
pub mod tenant;
