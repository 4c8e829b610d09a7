//! A small text-transformation engine: it validates and re-renders JSON, XML,
//! JWT and base64 payloads, reports structured failures with positional
//! diagnostics, and keeps large results in a chunk-addressable content store.

pub mod codec;
pub mod dispatch;
pub mod errors;
pub mod json;
pub mod jwt;
pub mod store;
pub mod summary;
pub mod text;
pub mod xml;
