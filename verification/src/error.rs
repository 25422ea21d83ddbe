//! What can go wrong with a proxied connection.

use vstd::prelude::*;

use tokio::sync::mpsc::error::SendError;

verus! {

/// A failed read or write of a socket, as std reports it.
#[verifier::external_type_specification]
#[verifier::external_body]
pub struct ExIoError(std::io::Error);

/// A message that its channel did not take, as the `tokio` crate hands it back.
#[verifier::external_type_specification]
#[verifier::external_body]
#[verifier::reject_recursive_types(T)]
pub struct ExSendError<T>(tokio::sync::mpsc::error::SendError<T>);

/// Why a connection ended.
#[derive(Debug)]
pub enum SocksError {
    /// The requested name is not that of a hidden service.
    UnsupportedDestination,
    /// A socket failed.
    IoError(std::io::Error),
    /// The other side broke the protocol in this way.
    ProtocolError(&'static str),
    /// The channel to the mixnet is closed.
    ConnectionDropped,
}

impl From<std::io::Error> for SocksError {
    fn from(e: std::io::Error) -> (error: SocksError) {
        SocksError::IoError(e)
    }
}

impl vstd::std_specs::convert::FromSpecImpl<std::io::Error> for SocksError {
    open spec fn obeys_from_spec() -> bool {
        true
    }

    open spec fn from_spec(e: std::io::Error) -> SocksError {
        SocksError::IoError(e)
    }
}

impl<T> From<SendError<T>> for SocksError {
    fn from(e: SendError<T>) -> (error: SocksError) {
        SocksError::ConnectionDropped
    }
}

impl<T> vstd::std_specs::convert::FromSpecImpl<SendError<T>> for SocksError {
    open spec fn obeys_from_spec() -> bool {
        true
    }

    open spec fn from_spec(e: SendError<T>) -> SocksError {
        SocksError::ConnectionDropped
    }
}

/// Whether `result` says what `outcome` says; a refusal is a protocol error with its reason.
pub open spec fn reports<T: View>(
    result: Result<T, SocksError>,
    outcome: Result<T::V, Seq<char>>,
) -> bool {
    match (result, outcome) {
        (Ok(value), Ok(meaning)) => value@ == meaning,
        (Err(SocksError::ProtocolError(message)), Err(reason)) => message@ == reason,
        _ => false,
    }
}

/// A result that reports an outcome is a success with that very meaning, or a protocol error with
/// that very reason, and says nothing else.
pub proof fn reports_are_exact<T: View>(
    result: Result<T, SocksError>,
    outcome: Result<T::V, Seq<char>>,
)
    requires
        reports(result, outcome),
    ensures
        result matches Ok(value) ==> outcome == Ok::<T::V, Seq<char>>(value@),
        result matches Err(error) ==> (error matches SocksError::ProtocolError(message)
            && outcome == Err::<T::V, Seq<char>>(message@)),
{
}

} // verus!
