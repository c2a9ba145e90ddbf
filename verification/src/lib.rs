//! Core logic of a minimal concurrent HTTP responder.
//!
//! The library holds everything about the responder that can be stated and
//! proved: choosing a concrete socket address from resolver output, framing
//! HTTP/1.1 requests on a byte stream, the fixed response, the per-connection
//! handler, and the acceptor's decisions. The surrounding process (sockets,
//! tasks, the command line) performs I/O and feeds plain values in and out.

pub mod handler;
pub mod http;
pub mod net;
pub mod server;
pub mod version;
