//! The route-addressed envelope: a call named by route and method, its
//! status-coded answer, and the id and error forms that go with it.

use vstd::prelude::*;

use crate::json::Json;

verus! {

pub type StatusCodeType = u16;

pub const STATUS_SUCCESS: StatusCodeType = 200;

pub const STATUS_NOT_FOUND: StatusCodeType = 404;

/// A route-level id: a string or a signed 32-bit integer.
#[derive(Clone, Debug, PartialEq, Eq)]
pub enum RpcId {
    Str(String),
    Number(i32),
}

/// A route-level error: a code, a message and optional data.
#[derive(Debug, PartialEq)]
pub struct RpcError {
    pub code: i32,
    pub message: String,
    pub data: Option<Json>,
}

impl RpcError {
    pub fn new(code: i32, message: String, data: Option<Json>) -> (r: RpcError)
        ensures
            r.code == code,
            r.message == message,
            r.data == data,
    {
        RpcError { code, message, data }
    }
}

/// A call addressed by route and method name.
pub struct SrpcRequest<'a, T> {
    pub route: &'a str,
    pub method_name: &'a str,
    pub data: T,
}

impl<'a, T> SrpcRequest<'a, T> {
    pub fn new(route: &'a str, method_name: &'a str, data: T) -> (r: Self)
        ensures
            r.route == route,
            r.method_name == method_name,
            r.data == data,
    {
        SrpcRequest { route, method_name, data }
    }
}

/// An answer with its status code.
pub struct SrpcResponse<T> {
    pub status_code: u16,
    pub data: T,
}

impl<T> SrpcResponse<T> {
    pub fn new(status_code: StatusCodeType, data: T) -> (r: Self)
        ensures
            r.status_code == status_code,
            r.data == data,
    {
        SrpcResponse { status_code, data }
    }
}

/// A failed call, by status code.
#[derive(Clone, Copy, Debug, PartialEq, Eq, Structural)]
pub struct SrpcError(pub StatusCodeType);

} // verus!
