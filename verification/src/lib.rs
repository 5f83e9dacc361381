//! A minimal HTTP service core: request routing, a request-count tracker,
//! and deterministic JSON response bodies, all with verified contracts.
//! The socket listener and connection plumbing live outside the library;
//! they feed plain method and path strings in and write the finished
//! response text back out.

pub mod json;
pub mod num;
pub mod router;
pub mod stats;
