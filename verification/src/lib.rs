//! A verified HTTP/1.1 protocol engine: a line-oriented request parser that
//! turns raw bytes into a structured request, a serializer that turns a
//! structured response back into wire bytes, a router that maps a method and
//! path to a route, and the pure part of each route's handler.
//!
//! Everything here works on plain byte sequences; sockets, threads and the
//! filesystem live with the caller, which hands bytes in and takes bytes out.

pub mod bytes;
pub mod text;
pub mod headers;
pub mod request;
pub mod response;
pub mod router;
pub mod handlers;
pub mod laws;
