//! Error kinds of the protocol and the flat error object carried by responses.

use vstd::prelude::*;

use crate::json::Json;

verus! {

/// The canonical error kinds of JSON-RPC 2.0.
///
/// `ServerError(n)` names the `n`-th server-defined error; its code lies in the
/// reserved range `-32099..=-32000`.
#[derive(Clone, Copy, Debug, PartialEq, Eq, Structural)]
pub enum ErrorKind {
    ParseError,
    InvalidRequest,
    MethodNotFound,
    InvalidParams,
    InternalError,
    ServerError(u32),
}

/// First code of the server-defined range.
pub const SERVER_ERROR_BASE: i32 = -32000;

/// Largest offset into the server-defined range.
pub const SERVER_ERROR_SPAN: u32 = 99;

impl ErrorKind {
    pub open spec fn spec_code(self) -> int {
        match self {
            ErrorKind::ParseError => -32700,
            ErrorKind::InvalidRequest => -32600,
            ErrorKind::MethodNotFound => -32601,
            ErrorKind::InvalidParams => -32602,
            ErrorKind::InternalError => -32603,
            ErrorKind::ServerError(n) => if n <= SERVER_ERROR_SPAN {
                SERVER_ERROR_BASE - n
            } else {
                SERVER_ERROR_BASE - SERVER_ERROR_SPAN
            },
        }
    }

    pub open spec fn spec_message(self) -> Seq<char> {
        match self {
            ErrorKind::ParseError => "Parse error"@,
            ErrorKind::InvalidRequest => "Invalid Request"@,
            ErrorKind::MethodNotFound => "Method not found"@,
            ErrorKind::InvalidParams => "Invalid params"@,
            ErrorKind::InternalError => "Internal error"@,
            ErrorKind::ServerError(_) => "Server error"@,
        }
    }

    /// The numeric code sent on the wire for this kind. Server errors past the
    /// end of the reserved range keep its last code.
    pub fn code(&self) -> (r: i32)
        ensures
            r == self.spec_code(),
            -32700 <= r <= -32000,
    {
        match *self {
            ErrorKind::ParseError => -32700,
            ErrorKind::InvalidRequest => -32600,
            ErrorKind::MethodNotFound => -32601,
            ErrorKind::InvalidParams => -32602,
            ErrorKind::InternalError => -32603,
            ErrorKind::ServerError(n) => {
                if n <= SERVER_ERROR_SPAN {
                    SERVER_ERROR_BASE - (n as i32)
                } else {
                    SERVER_ERROR_BASE - (SERVER_ERROR_SPAN as i32)
                }
            },
        }
    }

    /// The canonical message of this kind.
    pub fn message(&self) -> (r: &'static str)
        ensures
            r@ == self.spec_message(),
    {
        match self {
            ErrorKind::ParseError => "Parse error",
            ErrorKind::InvalidRequest => "Invalid Request",
            ErrorKind::MethodNotFound => "Method not found",
            ErrorKind::InvalidParams => "Invalid params",
            ErrorKind::InternalError => "Internal error",
            ErrorKind::ServerError(_) => "Server error",
        }
    }
}

/// A JSON-RPC error object: `code`, `message` and optional `data`.
#[derive(Debug, PartialEq)]
pub struct Error {
    pub code: i32,
    pub message: String,
    pub data: Option<Json>,
}

impl Error {
    /// The error of the given kind, with its canonical code and message.
    pub fn new(kind: ErrorKind, data: Option<Json>) -> (r: Error)
        ensures
            r.code == kind.spec_code(),
            r.message@ == kind.spec_message(),
            r.data == data,
    {
        Error { code: kind.code(), message: String::from_str(kind.message()), data }
    }
}

} // verus!
