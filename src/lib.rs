//! Message framing over a reliable, ordered byte stream.
//!
//! The library holds the receive side of a framed connection: a buffer of
//! bytes read from the transport but not yet decoded, and the decisions of the
//! read loop (decode what is buffered, ask for more, stop at end of stream).
//! The transport itself and the typed codec are driven by the caller.
pub mod buffer;
pub mod error;
pub mod framing;
pub mod receive;
