//! Status and error values that the transport operations return.
//!
//! A `UStatus` carries a code from the uProtocol status taxonomy and a short
//! human-readable message; the RPC client path reports its failures through
//! `RpcMapperError` instead, mirroring the split in the transport contract.

use vstd::prelude::*;

verus! {

/// The status codes the adapter uses: a caller error, an internal or
/// substrate failure, and the marker for an unimplemented operation.
#[derive(Clone, Copy, PartialEq, Eq, Debug)]
pub enum UCode {
    InvalidArgument,
    Internal,
    Unimplemented,
}

/// A status: a code plus the message shown to the caller.
#[derive(Clone, PartialEq, Eq, Debug)]
pub struct UStatus {
    pub code: UCode,
    pub message: String,
}

impl UStatus {
    /// A failed status with the given code and message.
    pub fn fail_with_code(code: UCode, message: &str) -> (s: UStatus)
        ensures
            s.code == code,
            s.message@ == message@,
    {
        UStatus { code, message: message.to_owned() }
    }
}

/// What the RPC client path reports when `invoke_method` cannot complete.
#[derive(Clone, PartialEq, Eq, Debug)]
pub enum RpcMapperError {
    UnexpectedError(String),
    InvalidPayload(String),
    ProtobufError(String),
}

} // verus!
