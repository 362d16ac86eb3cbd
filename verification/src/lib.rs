//! Incremental generator for MIME multipart messages (RFC 2046 framing, as
//! used for HTTP `multipart/form-data` submissions).
//!
//! A [`Writer`](writer::Writer) owns a boundary token and the framing state of
//! one message; each operation appends correctly delimited bytes to a caller
//! supplied [`Sink`](sink::Sink).
#![allow(non_snake_case)]

pub mod order;
pub mod escape;
pub mod header;
pub mod sink;
pub mod boundary;
pub mod writer;

pub use order::str_lt;
pub use boundary::{boundary_from_bytes, randomBoundary};
pub use writer::Writer;
pub use escape::escapeQuotes;
pub use header::PartHeader;
pub use sink::{BufferSink, BoundedSink, MultipartError, Sink};
