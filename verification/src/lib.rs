//! Core logic of a media catalog server: thumbnail generation planning
//! with single-flight deduplication, a bounded permit pool for expensive
//! work, catalog entry handling, and HTTP byte-range resolution for
//! content delivery.

pub mod catalog;
pub mod config;
pub mod coordinator;
pub mod etag;
pub mod generator;
pub mod limiter;
pub mod range;
pub mod requests;
pub mod text;
