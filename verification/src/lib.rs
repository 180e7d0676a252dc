//! Client library of a document store: handles, queries, dialects, cursors,
//! caches and the embedded driver.
//!
//! Nothing here does I/O. A store, a server, a clock or a thread is asked by
//! the caller; the library says what to ask, and what an answer means. What is
//! stored as JSON is held as [`json::Json`], whose numbers that are no integers
//! are kept by their decimal text.
//!
//! - [`app_v1`], [`app_client`], [`app_calls`], [`app_wire`], [`view_bound`]:
//!   the application surface over a store of this process or a server.
//! - [`heap`], [`heap_calls`], [`covered_reads`], [`aggregate_scan`],
//!   [`decoded_cache`], [`shelf`]: heaps, and reads through the cache.
//! - [`named_collection`], [`collection`], [`indexes`], [`multi_query`],
//!   [`query_plan`], [`portable_find`]: named collections and their queries.
//! - [`filter`], [`predicate`], [`sda_text`], [`dialects`]: the query languages.
//! - [`cluster_backend`], [`directory_cache`]: routing in a cluster.
//! - [`cursor_v1`], [`digest`], [`codec`]: continuation tokens and encodings.
//! - [`driver`]: the embedded driver, its scheduler and its atomic plans.
//! - [`error`], [`json`], [`json_text`], [`sorting`], [`text`]: what the others
//!   share.
//! - [`meaning`]: the laws that say of all these what they are for, in terms of
//!   documents and values.
pub mod aggregate_scan;
pub mod app_calls;
pub mod app_client;
pub mod app_v1;
pub mod app_wire;
pub mod cluster_backend;
pub mod codec;
pub mod collection;
pub mod covered_reads;
pub mod cursor_v1;
pub mod decoded_cache;
pub mod dialects;
pub mod digest;
pub mod directory_cache;
pub mod driver;
pub mod error;
pub mod filter;
pub mod heap;
pub mod heap_calls;
pub mod indexes;
pub mod json;
pub mod json_text;
pub mod meaning;
pub mod multi_query;
pub mod named_collection;
pub mod portable_find;
pub mod predicate;
pub mod query_plan;
pub mod sda_text;
pub mod shelf;
pub mod sorting;
pub mod text;
pub mod view_bound;
