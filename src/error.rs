//! The failure modes of a connection.
use vstd::prelude::*;

verus! {

#[verifier::external_type_specification]
#[verifier::external_body]
pub struct ExIoError(std::io::Error);

#[verifier::external_type_specification]
#[verifier::external_body]
pub struct ExBincodeErrorKind(bincode::ErrorKind);

/// The failure modes of a connection.
#[derive(Debug)]
pub enum ConnectionError {
    /// The transport failed to read, write or flush.
    IoError(std::io::Error),
    /// A value could not be encoded, or the buffered bytes cannot be decoded.
    BincodeError(Box<bincode::Error>),
    /// The peer closed its stream in the middle of a message.
    ConnectionReset(String),
}

impl From<std::io::Error> for ConnectionError {
    fn from(e: std::io::Error) -> (r: ConnectionError)
        ensures
            r == ConnectionError::IoError(e),
    {
        ConnectionError::IoError(e)
    }
}

impl vstd::std_specs::convert::FromSpecImpl<std::io::Error> for ConnectionError {
    open spec fn obeys_from_spec() -> bool {
        true
    }

    open spec fn from_spec(e: std::io::Error) -> ConnectionError {
        ConnectionError::IoError(e)
    }
}

impl From<bincode::Error> for ConnectionError {
    fn from(e: bincode::Error) -> (r: ConnectionError)
        ensures
            r == ConnectionError::BincodeError(Box::new(e)),
    {
        ConnectionError::BincodeError(Box::new(e))
    }
}

impl vstd::std_specs::convert::FromSpecImpl<bincode::Error> for ConnectionError {
    open spec fn obeys_from_spec() -> bool {
        true
    }

    open spec fn from_spec(e: bincode::Error) -> ConnectionError {
        ConnectionError::BincodeError(Box::new(e))
    }
}

} // verus!
