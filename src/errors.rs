use vstd::prelude::*;
use crate::decimal::{decimal_value, format_u128, is_canonical_decimal};

verus! {

/// What went wrong while serving a request, before it is given a code.
#[derive(Debug, Clone)]
pub enum ErrorKind {
    InvalidInput(String),
    InternalError(String),
    RPCError(String),
}

/// An error as reported to a client of the transfer service.
#[derive(Debug, Clone, PartialEq, Eq)]
pub struct Error {
    /// A network-specific error code, equal to an HTTP status code here.
    pub code: u32,
    /// A network-specific error message.
    pub message: String,
    /// Whether the same request may succeed if submitted again.
    pub retriable: bool,
}

/// The status code that an error of this kind is reported with.
pub open spec fn kind_code(err: ErrorKind) -> u32 {
    match err {
        ErrorKind::InvalidInput(_) => 400,
        ErrorKind::InternalError(_) => 500,
        ErrorKind::RPCError(_) => 500,
    }
}

/// The text that the message of an error of this kind is reported with.
pub open spec fn kind_message(err: ErrorKind) -> Seq<char> {
    match err {
        ErrorKind::InvalidInput(m) => "Invalid Input: "@ + m@,
        ErrorKind::InternalError(m) => "Internal Error: "@ + m@,
        ErrorKind::RPCError(m) => "RPC error: "@ + m@,
    }
}

/// Whether a request that failed with an error of this kind may be retried.
pub open spec fn kind_retriable(err: ErrorKind) -> bool {
    !(err is InvalidInput)
}

impl Error {
    /// Gives an error kind its code, its message and whether it is retriable.
    pub fn from_error_kind(err: ErrorKind) -> (r: Self)
        ensures
            r.code == kind_code(err),
            r.message@ == kind_message(err),
            r.retriable == kind_retriable(err),
    {
        match err {
            ErrorKind::InvalidInput(message) => Error {
                code: 400,
                message: String::from_str("Invalid Input: ").concat(message.as_str()),
                retriable: false,
            },
            ErrorKind::InternalError(message) => Error {
                code: 500,
                message: String::from_str("Internal Error: ").concat(message.as_str()),
                retriable: true,
            },
            ErrorKind::RPCError(message) => Error {
                code: 500,
                message: String::from_str("RPC error: ").concat(message.as_str()),
                retriable: true,
            },
        }
    }

    /// The error as one line of text: `Error #<code>: <message>`, with
    /// ` (retriable)` after the code where the request may be retried.
    pub fn describe(&self) -> (r: String)
        ensures
            exists|d: Seq<char>|
                is_canonical_decimal(d) && decimal_value(d) == self.code && r@ == "Error #"@ + d
                    + (if self.retriable {
                    " (retriable)"@
                } else {
                    ""@
                }) + ": "@ + self.message@,
    {
        let code = format_u128(self.code as u128);
        let r = String::from_str("Error #").concat(code.as_str());
        let r = if self.retriable {
            r.concat(" (retriable)")
        } else {
            r.concat("")
        };
        r.concat(": ").concat(self.message.as_str())
    }
}

} // verus!
