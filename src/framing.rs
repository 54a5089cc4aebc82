//! The receive side of a framed connection.
//!
//! A `FrameReader` owns the receive buffer. The caller runs the read loop:
//! it decodes a value from `pending()`, hands the outcome to `settle`, and
//! when that yields no value it reads once from the transport and hands the
//! bytes to `fill`, until a value, the end of the stream or an error comes.
use vstd::prelude::*;

use crate::buffer::{
    buffer_append, buffer_bytes, buffer_drop_front, buffer_len, buffer_with_capacity, buffered,
};
use crate::error::ConnectionError;

verus! {

/// The capacity that a new receive buffer starts with, unless told otherwise.
pub const DEFAULT_BUFFER_SIZE: usize = 4096;

/// What a self-delimiting decoder reports for the bytes at the front of the buffer.
#[derive(Debug)]
pub enum Decoded<T> {
    /// A whole value, taken from the first `consumed` bytes.
    Complete { value: T, consumed: usize },
    /// The bytes are a valid prefix of a value that is not all there yet.
    Incomplete,
    /// The bytes can never become a value, whatever follows them.
    Malformed(bincode::Error),
}

/// What a read from the transport came to.
#[derive(PartialEq, Eq, Structural, Debug, Clone, Copy)]
pub enum Fill {
    /// Bytes arrived and now stand at the tail of the buffer.
    Appended,
    /// The peer closed its stream with nothing buffered: a clean end.
    EndOfStream,
}

/// The receive buffer of a framed connection.
pub struct FrameReader {
    buffer: bytes::BytesMut,
}

/// The buffer after a decode outcome: a complete value's bytes leave the
/// front, and nothing else changes.
pub open spec fn settle_next<T>(buf: Seq<u8>, outcome: Decoded<T>) -> Seq<u8> {
    match outcome {
        Decoded::Complete { consumed, .. } => buf.skip(consumed as int),
        _ => buf,
    }
}

/// Whether a decode outcome fits the buffer it was computed from.
pub open spec fn fits<T>(buf: Seq<u8>, outcome: Decoded<T>) -> bool {
    outcome is Complete ==> outcome->consumed <= buf.len()
}

impl View for FrameReader {
    type V = Seq<u8>;

    closed spec fn view(&self) -> Seq<u8> {
        buffered(self.buffer)
    }
}

impl FrameReader {
    /// An empty receive buffer with the default capacity.
    pub fn new() -> (r: FrameReader)
        ensures
            r@ == Seq::<u8>::empty(),
    {
        FrameReader::with_capacity(DEFAULT_BUFFER_SIZE)
    }

    /// An empty receive buffer that starts with room for `capacity` bytes; it
    /// grows past that as needed.
    pub fn with_capacity(capacity: usize) -> (r: FrameReader)
        ensures
            r@ == Seq::<u8>::empty(),
    {
        FrameReader { buffer: buffer_with_capacity(capacity) }
    }

    /// The bytes received but not yet decoded, front first.
    pub fn pending(&self) -> (r: &[u8])
        ensures
            r@ == self@,
    {
        buffer_bytes(&self.buffer)
    }

    /// The number of bytes received but not yet decoded.
    pub fn pending_len(&self) -> (r: usize)
        ensures
            r == self@.len(),
    {
        buffer_len(&self.buffer)
    }

    /// Acts on what the decoder made of `pending()`: a complete value is
    /// returned and exactly its bytes leave the buffer, so that bytes of a
    /// following message stay; an incomplete prefix asks for more bytes
    /// (`Ok(None)`); malformed bytes fail the call.
    pub fn settle<T>(&mut self, outcome: Decoded<T>) -> (r: Result<Option<T>, ConnectionError>)
        requires
            fits(old(self)@, outcome),
        ensures
            final(self)@ == settle_next(old(self)@, outcome),
            match outcome {
                Decoded::Complete { value, .. } => r == Ok::<Option<T>, ConnectionError>(
                    Some(value),
                ),
                Decoded::Incomplete => r == Ok::<Option<T>, ConnectionError>(None),
                Decoded::Malformed(e) => r == Err::<Option<T>, ConnectionError>(
                    ConnectionError::BincodeError(Box::new(e)),
                ),
            },
    {
        match outcome {
            Decoded::Complete { value, consumed } => {
                buffer_drop_front(&mut self.buffer, consumed);
                Ok(Some(value))
            },
            Decoded::Incomplete => Ok(None),
            Decoded::Malformed(e) => Err(ConnectionError::BincodeError(Box::new(e))),
        }
    }

    /// Takes the bytes of one read from the transport. Bytes are appended at
    /// the tail. An empty read means that the peer closed its stream: with
    /// nothing buffered that is a clean end, otherwise the peer left in the
    /// middle of a message and the connection was reset.
    pub fn fill(&mut self, chunk: &[u8]) -> (r: Result<Fill, ConnectionError>)
        ensures
            chunk@.len() > 0 ==> r == Ok::<Fill, ConnectionError>(Fill::Appended) && final(self)@
                == old(self)@ + chunk@,
            chunk@.len() == 0 ==> final(self)@ == old(self)@,
            chunk@.len() == 0 && old(self)@.len() == 0 ==> r == Ok::<Fill, ConnectionError>(
                Fill::EndOfStream,
            ),
            chunk@.len() == 0 && old(self)@.len() > 0 ==> r is Err && r->Err_0 is ConnectionReset
                && r->Err_0->ConnectionReset_0@ == reset_message(),
    {
        if chunk.len() > 0 {
            buffer_append(&mut self.buffer, chunk);
            Ok(Fill::Appended)
        } else if buffer_len(&self.buffer) == 0 {
            Ok(Fill::EndOfStream)
        } else {
            Err(ConnectionError::ConnectionReset(String::from_str("connection reset by peer")))
        }
    }
}

/// The text that a reset error carries.
pub open spec fn reset_message() -> Seq<char> {
    "connection reset by peer"@
}

/// Relies on `bincode::ErrorKind::Io` and `std::io::Error::kind`: bincode
/// reports a reader that ran out of bytes as an I/O error of kind
/// `UnexpectedEof`; every other error is one that more bytes cannot mend.
#[verifier::external_body]
fn ran_out_of_input(e: &bincode::ErrorKind) -> (r: bool) {
    match e {
        bincode::ErrorKind::Io(io) => io.kind() == std::io::ErrorKind::UnexpectedEof,
        _ => false,
    }
}

/// Sorts what bincode returned for the bytes of `pending()`, with the number
/// of bytes its reader took, into the three outcomes the read loop tells
/// apart. An error is `Incomplete` where bincode ran out of input, and
/// `Malformed` otherwise.
pub fn classify<T>(result: Result<(T, usize), bincode::Error>) -> (r: Decoded<T>)
    ensures
        match result {
            Ok((value, consumed)) => r == (Decoded::Complete { value, consumed }),
            Err(e) => r is Incomplete || r == Decoded::<T>::Malformed(e),
        },
{
    match result {
        Ok((value, consumed)) => Decoded::Complete { value, consumed },
        Err(e) => {
            if ran_out_of_input(&e) {
                Decoded::Incomplete
            } else {
                Decoded::Malformed(e)
            }
        },
    }
}

} // verus!
