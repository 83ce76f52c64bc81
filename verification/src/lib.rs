//! Query building and result normalization for a log search service.
//!
//! The crate turns a validated search filter into the request body that the
//! search engine expects, and reshapes the hits that come back into a stable
//! form whose field names follow one naming convention. It does no I/O: the
//! caller sends the request and hands over the body of the answer.
//!
//! - [`json`]: the document tree that requests and hits are made of, and its
//!   mathematical model.
//! - [`text`]: the order of member names, and the sanitized form of a name.
//! - [`object`]: members collected in key order, as a map holds them.
//! - [`sanitize`]: the field sanitizer.
//! - [`date`]: calendar dates and their ISO 8601 text.
//! - [`query`]: the query builder.
//! - [`hits`]: the result mapper, and the reading of an answer.
//! - [`error`]: the ways in which a search can fail.
//! - [`config`]: the settings that the service is started with.

pub mod config;
pub mod date;
pub mod error;
pub mod hits;
pub mod json;
pub mod object;
pub mod query;
pub mod sanitize;
pub mod text;
