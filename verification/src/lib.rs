//! Verified core of a client for a joke-retrieval web service.
//!
//! The library owns everything about the client that can be stated and
//! proved: endpoint configuration and validation, request-URL construction
//! (including the limit/page defaulting rules of the search operation),
//! classification of HTTP status codes, and the decoding of the service's
//! JSON response bodies into typed records. The surrounding program performs
//! the HTTP transfers and hands the plain status code and body text to this
//! crate.

pub mod api;
pub mod chars;
pub mod digits;
pub mod errors;
pub mod parse;
pub mod responses;
pub mod wire;
