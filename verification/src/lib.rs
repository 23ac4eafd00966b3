//! Batched, field-aware data loading for a product catalog API.
//!
//! The library turns many concurrent per-entity data requests, each carrying
//! its own set of requested fields and an optional narrowing filter, into a
//! minimal number of bulk fetches, and hands each original request exactly
//! the rows that belong to it.  Field names are normalized and checked
//! against a fixed allow-list before they may appear in generated query
//! text; filter values are always passed as bound parameters.

pub mod columns;
pub mod config;
pub mod domain;
pub mod keys;
pub mod loader;
pub mod paging;
pub mod projection;
pub mod query;
pub mod rows;
