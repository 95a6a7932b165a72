//! A connector core that turns paginated responses of a billing API
//! into typed tabular rows: schema-driven field mapping from nested
//! JSON into typed columns, cursor pagination, bounded retry with
//! exponential backoff, and tolerance of item-level failures. The
//! transport (HTTP, credentials, the host query engine) stays
//! outside; the core works on plain values and hands the caller one
//! row at a time.

pub mod cell;
pub mod coerce;
pub mod error;
pub mod json;
pub mod page;
pub mod project;
pub mod resolve;
pub mod scan;
pub mod schema;
pub mod time;
