//! JSON text: the one place where bytes become `Json` values and back.

use vstd::prelude::*;

use crate::json::Json;
use crate::message::{encodes_request, encodes_response, request_to_json, response_to_json, Request, Response};

verus! {

#[verifier::external_type_specification]
#[verifier::external_body]
pub struct ExValue(serde_json::Value);

/// What serde_json makes of a byte string: a value, or its error message.
pub uninterp spec fn json_parse(b: Seq<u8>) -> Result<Json, Seq<char>>;

/// The JSON text that serde_json writes for a value.
pub uninterp spec fn json_text(j: Json) -> Seq<u8>;

/// Moves a parsed `serde_json::Value` into a `Json`, variant by variant;
/// relies on `Number::as_u64` and `Number::as_i64` to tell the integers
/// apart from other numbers. No contract: nothing is promised of the result.
#[verifier::external_body]
fn json_from_value(v: serde_json::Value) -> Json {
    match v {
        serde_json::Value::Null => Json::Null,
        serde_json::Value::Bool(b) => Json::Bool(b),
        serde_json::Value::Number(n) => match (n.as_u64(), n.as_i64()) {
            (Some(u), _) => Json::UInt(u),
            (None, Some(i)) => Json::Int(i),
            (None, None) => Json::Float(n),
        },
        serde_json::Value::String(s) => Json::Str(s),
        serde_json::Value::Array(a) => Json::Array(a.into_iter().map(json_from_value).collect()),
        serde_json::Value::Object(m) => Json::Object(m.into_iter().map(|(k, v)| (k, json_from_value(v))).collect()),
    }
}

/// Copies a `Json` into a `serde_json::Value`, variant by variant, through
/// `Value::from` for the integers. No contract: nothing is promised of the
/// result.
#[verifier::external_body]
fn value_from_json(j: &Json) -> serde_json::Value {
    match j {
        Json::Null => serde_json::Value::Null,
        Json::Bool(b) => serde_json::Value::Bool(*b),
        Json::UInt(u) => serde_json::Value::from(*u),
        Json::Int(i) => serde_json::Value::from(*i),
        Json::Float(n) => serde_json::Value::Number(n.clone()),
        Json::Str(s) => serde_json::Value::String(s.clone()),
        Json::Array(a) => serde_json::Value::Array(a.iter().map(value_from_json).collect()),
        Json::Object(m) => serde_json::Value::Object(m.iter().map(|(k, v)| (k.clone(), value_from_json(v))).collect()),
    }
}

/// Relies on `serde_json::from_slice` into `serde_json::Value`: the outcome
/// depends on the bytes alone, and an empty input is an error (EOF while
/// parsing a value).
#[verifier::external_body]
pub(crate) fn parse_json(bytes: &[u8]) -> (r: Result<Json, String>)
    ensures
        match r {
            Ok(j) => json_parse(bytes@) == Ok::<Json, Seq<char>>(j),
            Err(m) => json_parse(bytes@) == Err::<Json, Seq<char>>(m@),
        },
        bytes@.len() == 0 ==> r is Err,
{
    match serde_json::from_slice::<serde_json::Value>(bytes) {
        Ok(v) => Ok(json_from_value(v)),
        Err(e) => Err(e.to_string()),
    }
}

/// Relies on `serde_json::to_vec` of a `serde_json::Value`, which cannot
/// fail (every key is a string): the text depends on the value alone.
#[verifier::external_body]
pub(crate) fn json_bytes(j: &Json) -> (r: Vec<u8>)
    ensures
        r@ == json_text(*j),
{
    serde_json::to_vec(&value_from_json(j)).unwrap_or_default()
}

} // verus!

verus! {

/// `t` is the JSON text of response `r`.
pub open spec fn is_response_text(t: Seq<u8>, r: Response) -> bool {
    exists|j: Json| encodes_response(j, r) && t == json_text(j)
}

/// `t` is the JSON text of request `r`.
pub open spec fn is_request_text(t: Seq<u8>, r: Request) -> bool {
    exists|j: Json| encodes_request(j, r) && t == json_text(j)
}

/// The JSON text of a well-formed response.
pub fn encode_response(r: Response) -> (b: Vec<u8>)
    requires
        r.wf(),
    ensures
        is_response_text(b@, r),
{
    let ghost r0 = r;
    let j = response_to_json(r);
    let b = json_bytes(&j);
    assert(encodes_response(j, r0) && b@ == json_text(j));
    b
}

/// The JSON text of a request.
pub fn encode_request(r: Request) -> (b: Vec<u8>)
    ensures
        is_request_text(b@, r),
{
    let ghost r0 = r;
    let j = request_to_json(r);
    let b = json_bytes(&j);
    assert(encodes_request(j, r0) && b@ == json_text(j));
    b
}

} // verus!
