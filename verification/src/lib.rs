//! A minimal embeddable HTTP server front end.
//!
//! The crate turns raw request text into a structured [`http::Request`],
//! matches it against a table of routes with positional path parameters,
//! runs a chain of prefix-scoped middleware around the matched handler,
//! and serializes the resulting [`http::Response`] back to wire format.
//! All parsing, matching, composition and serialization logic is verified;
//! the surrounding socket loop is expected to live outside this crate and
//! hand raw text in and take raw text out.
#![verifier::loop_isolation(false)]

pub mod app;
pub mod http;
pub mod router;
pub mod strmap;
pub mod text;
