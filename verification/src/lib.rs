//! A minimal HTTP/1.1 message core: framing a request off a byte stream,
//! parsing it into a structured request, routing it to a handful of built-in
//! behaviors, and serializing the response back to wire bytes.
//!
//! Everything works over raw bytes (`Vec<u8>`), since HTTP is a byte protocol
//! and compressed bodies are not valid UTF-8. The I/O itself (sockets, files)
//! lives outside this crate: callers hand in lines and body bytes and perform
//! the file reads and writes that the router asks for.

pub mod byteops;
pub mod gzip;
pub mod headers;
pub mod numbers;
pub mod reader;
pub mod request;
pub mod response;
pub mod split;
pub mod wire;
