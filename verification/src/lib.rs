//! A content-addressed feed generator for an AT-Protocol network: it ingests
//! firehose commit events and per-user timelines, filters them through
//! configured matchers, indexes the qualifying post references with
//! deduplication, scoring, deny-listing and retention, and serves ranked,
//! paginated feed skeletons.
//!
//! The crate holds the verified core: the index store and its invariants, the
//! matcher kit with its JSON-path queries, the consumers' decision logic, the
//! scored page cache and the skeleton endpoints. Network and file I/O, the
//! async runtime and JSON (de)serialization live outside it and hand the
//! library plain values.

pub mod cache;
pub mod config;
pub mod consumer;
pub mod errors;
pub mod feed_storage;
pub mod feedcfg;
pub mod json;
pub mod jsonpath;
pub mod matcher;
pub mod service;
pub mod store;
pub mod strutil;
pub mod timeline_config;
pub mod timeline_consumer;
pub mod timeline_storage;
