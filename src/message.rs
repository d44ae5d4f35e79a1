//! Requests and responses, and their JSON form.

use vstd::prelude::*;

use crate::errors::{Error, ErrorKind};
use crate::json::{member, named, take_members, distinct_names, Json};

verus! {

/// The protocol version; only 2.0 is spoken.
#[derive(Clone, Copy, Debug, PartialEq, Eq, Structural)]
pub enum Version {
    V2,
}

/// A request id: a string or an unsigned 32-bit integer.
#[derive(Clone, Debug, PartialEq, Eq, Hash)]
pub enum Id {
    Str(String),
    Num(u32),
}

/// A call (with an id) or a notification (without one).
#[derive(Debug, PartialEq)]
pub struct Request {
    pub jsonrpc: Version,
    pub method: String,
    pub params: Json,
    pub id: Option<Id>,
}

/// The answer to a call: exactly one of `result` and `error`. The id mirrors
/// the request's; it is absent only where no id could be read from the request.
#[derive(Debug, PartialEq)]
pub struct Response {
    pub jsonrpc: Version,
    pub result: Option<Json>,
    pub error: Option<Error>,
    pub id: Option<Id>,
}

/// Why a JSON value is not a request or a response.
#[derive(Clone, Copy, Debug, PartialEq, Eq, Structural)]
pub enum DecodeError {
    NotAnObject,
    UnknownMember,
    BadVersion,
    BadMethod,
    BadId,
    BadOutcome,
    BadError,
}

/// What a decode error says, as carried in an error's data.
pub open spec fn decode_error_message(e: DecodeError) -> Seq<char> {
    match e {
        DecodeError::NotAnObject => "expected a JSON object"@,
        DecodeError::UnknownMember => "unknown member"@,
        DecodeError::BadVersion => "`jsonrpc` must be \"2.0\""@,
        DecodeError::BadMethod => "`method` must be a string"@,
        DecodeError::BadId => "`id` must be a string or an unsigned 32-bit integer"@,
        DecodeError::BadOutcome => "exactly one of `result` and `error` must be present"@,
        DecodeError::BadError => "`error` must be an error object"@,
    }
}

/// Says why a JSON value is not a request or a response.
pub fn describe_decode_error(e: DecodeError) -> (r: String)
    ensures
        r@ == decode_error_message(e),
{
    match e {
        DecodeError::NotAnObject => String::from_str("expected a JSON object"),
        DecodeError::UnknownMember => String::from_str("unknown member"),
        DecodeError::BadVersion => String::from_str("`jsonrpc` must be \"2.0\""),
        DecodeError::BadMethod => String::from_str("`method` must be a string"),
        DecodeError::BadId => String::from_str("`id` must be a string or an unsigned 32-bit integer"),
        DecodeError::BadOutcome => String::from_str("exactly one of `result` and `error` must be present"),
        DecodeError::BadError => String::from_str("`error` must be an error object"),
    }
}

impl Request {
    pub fn new(method: String, params: Json, id: Option<Id>) -> (r: Request)
        ensures
            r == (Request { jsonrpc: Version::V2, method, params, id }),
    {
        Request { jsonrpc: Version::V2, method, params, id }
    }
}

impl Response {
    /// Exactly one of `result` and `error` is set.
    pub open spec fn wf(self) -> bool {
        self.result is Some != self.error is Some
    }

    pub fn from_result(result: Json, id: Id) -> (r: Response)
        ensures
            r == (Response { jsonrpc: Version::V2, result: Some(result), error: None, id: Some(id) }),
            r.wf(),
    {
        Response { jsonrpc: Version::V2, result: Some(result), error: None, id: Some(id) }
    }

    pub fn from_error(error: Error, id: Id) -> (r: Response)
        ensures
            r == (Response { jsonrpc: Version::V2, result: None, error: Some(error), id: Some(id) }),
            r.wf(),
    {
        Response { jsonrpc: Version::V2, result: None, error: Some(error), id: Some(id) }
    }

    pub fn from_error_data(kind: ErrorKind, data: Option<Json>, id: Id) -> (r: Response)
        ensures
            r.jsonrpc == Version::V2,
            r.result is None,
            r.error matches Some(e) && e.code == kind.spec_code() && e.message@ == kind.spec_message()
                && e.data == data,
            r.id == Some(id),
            r.wf(),
    {
        Response { jsonrpc: Version::V2, result: None, error: Some(Error::new(kind, data)), id: Some(id) }
    }

    /// An error answer to a request whose id could not be read (`"id": null`).
    pub fn from_error_without_id(error: Error) -> (r: Response)
        ensures
            r == (Response { jsonrpc: Version::V2, result: None, error: Some(error), id: None }),
            r.wf(),
    {
        Response { jsonrpc: Version::V2, result: None, error: Some(error), id: None }
    }
}

// ---------------------------------------------------------------------------
// JSON form
// ---------------------------------------------------------------------------

pub open spec fn id_json(id: Id) -> Json {
    match id {
        Id::Str(s) => Json::Str(s),
        Id::Num(n) => Json::UInt(n as u64),
    }
}

pub open spec fn spec_id_from_json(j: Json) -> Option<Id> {
    match j {
        Json::Str(s) => Some(Id::Str(s)),
        Json::UInt(u) => if u <= u32::MAX {
            Some(Id::Num(u as u32))
        } else {
            None
        },
        _ => None,
    }
}

pub open spec fn code_json(c: i32) -> Json {
    if c < 0 {
        Json::Int(c as i64)
    } else {
        Json::UInt(c as u64)
    }
}

pub open spec fn spec_code_from_json(j: Json) -> Option<i32> {
    match j {
        Json::Int(i) => if i32::MIN <= i <= i32::MAX {
            Some(i as i32)
        } else {
            None
        },
        Json::UInt(u) => if u <= i32::MAX {
            Some(u as i32)
        } else {
            None
        },
        _ => None,
    }
}

/// Whether member `i` of `s` is named `k` with value `v`.
pub open spec fn member_at(s: Seq<(String, Json)>, i: int, k: Seq<char>, v: Json) -> bool {
    0 <= i < s.len() && s[i].0@ == k && s[i].1 == v
}

/// `j` is the JSON object that encodes request `r`: `jsonrpc`, `method`,
/// `params`, then `id` where `r` has one.
pub open spec fn encodes_request(j: Json, r: Request) -> bool {
    j matches Json::Object(fs) && {
        let s = fs@;
        &&& s.len() == if r.id is Some { 4int } else { 3int }
        &&& 0 < s.len() && s[0].0@ == "jsonrpc"@ && s[0].1.is_str_of("2.0"@)
        &&& member_at(s, 1, "method"@, Json::Str(r.method))
        &&& member_at(s, 2, "params"@, r.params)
        &&& r.id matches Some(id) ==> member_at(s, 3, "id"@, id_json(id))
    }
}

/// `j` is the JSON object that encodes error `e`: `code`, `message`, then
/// `data` where `e` has some.
pub open spec fn encodes_error(j: Json, e: Error) -> bool {
    j matches Json::Object(fs) && {
        let s = fs@;
        &&& s.len() == if e.data is Some { 3int } else { 2int }
        &&& member_at(s, 0, "code"@, code_json(e.code))
        &&& member_at(s, 1, "message"@, Json::Str(e.message))
        &&& e.data matches Some(d) ==> member_at(s, 2, "data"@, d)
    }
}

/// `j` is the JSON object that encodes response `r`: `jsonrpc`, then `result`
/// or `error`, then `id` (null where `r` has none).
pub open spec fn encodes_response(j: Json, r: Response) -> bool {
    j matches Json::Object(fs) && {
        let s = fs@;
        &&& s.len() == 3
        &&& s[0].0@ == "jsonrpc"@ && s[0].1.is_str_of("2.0"@)
        &&& match r.result {
            Some(v) => member_at(s, 1, "result"@, v),
            None => s[1].0@ == "error"@ && (r.error matches Some(e) && encodes_error(s[1].1, e)),
        }
        &&& member_at(s, 2, "id"@, match r.id { Some(id) => id_json(id), None => Json::Null })
    }
}

pub open spec fn request_names() -> Seq<Seq<char>> {
    seq!["jsonrpc"@, "method"@, "params"@, "id"@]
}

pub open spec fn response_names() -> Seq<Seq<char>> {
    seq!["jsonrpc"@, "result"@, "error"@, "id"@]
}

pub open spec fn error_names() -> Seq<Seq<char>> {
    seq!["code"@, "message"@, "data"@]
}

/// Every member of `s` bears one of `names`.
pub open spec fn only_members(s: Seq<(String, Json)>, names: Seq<Seq<char>>) -> bool {
    forall|j: int| 0 <= j < s.len() ==> #[trigger] names.contains(s[j].0@)
}

/// The request that `j` decodes to. Checked in this order: an object; no
/// member but `jsonrpc`, `method`, `params`, `id`; `jsonrpc` is `"2.0"`;
/// `method` is a string; `id`, where present, is a string or a `u32`.
/// A missing `params` reads as null.
pub open spec fn spec_request_from_json(j: Json) -> Result<Request, DecodeError> {
    match j {
        Json::Object(fs) => {
            let s = fs@;
            if !only_members(s, request_names()) {
                Err(DecodeError::UnknownMember)
            } else if !(member(s, "jsonrpc"@) matches Some(v) && v.is_str_of("2.0"@)) {
                Err(DecodeError::BadVersion)
            } else if !(member(s, "method"@) matches Some(Json::Str(_))) {
                Err(DecodeError::BadMethod)
            } else if member(s, "id"@) matches Some(v) && spec_id_from_json(v) is None {
                Err(DecodeError::BadId)
            } else {
                Ok(Request {
                    jsonrpc: Version::V2,
                    method: member(s, "method"@)->Some_0->Str_0,
                    params: match member(s, "params"@) {
                        Some(p) => p,
                        None => Json::Null,
                    },
                    id: match member(s, "id"@) {
                        Some(v) => spec_id_from_json(v),
                        None => None,
                    },
                })
            }
        },
        _ => Err(DecodeError::NotAnObject),
    }
}

/// The error object that `j` decodes to: an object with only `code` (an
/// `i32`), `message` (a string) and an optional `data`.
pub open spec fn spec_error_from_json(j: Json) -> Option<Error> {
    match j {
        Json::Object(fs) => {
            let s = fs@;
            if only_members(s, error_names()) && (member(s, "code"@) matches Some(c)
                && spec_code_from_json(c) is Some) && (member(s, "message"@) matches Some(
                Json::Str(m),
            )) {
                Some(Error {
                    code: spec_code_from_json(member(s, "code"@)->Some_0)->Some_0,
                    message: member(s, "message"@)->Some_0->Str_0,
                    data: member(s, "data"@),
                })
            } else {
                None
            }
        },
        _ => None,
    }
}

/// The response that `j` decodes to. Checked in this order: an object; no
/// member but `jsonrpc`, `result`, `error`, `id`; `jsonrpc` is `"2.0"`; `id`
/// is present and null, a string or a `u32`; exactly one of `result` and
/// `error`; the error is an error object.
pub open spec fn spec_response_from_json(j: Json) -> Result<Response, DecodeError> {
    match j {
        Json::Object(fs) => {
            let s = fs@;
            if !only_members(s, response_names()) {
                Err(DecodeError::UnknownMember)
            } else if !(member(s, "jsonrpc"@) matches Some(v) && v.is_str_of("2.0"@)) {
                Err(DecodeError::BadVersion)
            } else if !(member(s, "id"@) matches Some(v) && (v is Null || spec_id_from_json(v) is Some)) {
                Err(DecodeError::BadId)
            } else if member(s, "result"@) is Some == member(s, "error"@) is Some {
                Err(DecodeError::BadOutcome)
            } else if member(s, "error"@) matches Some(e) && spec_error_from_json(e) is None {
                Err(DecodeError::BadError)
            } else {
                Ok(Response {
                    jsonrpc: Version::V2,
                    result: member(s, "result"@),
                    error: match member(s, "error"@) {
                        Some(e) => spec_error_from_json(e),
                        None => None,
                    },
                    id: spec_id_from_json(member(s, "id"@)->Some_0),
                })
            }
        },
        _ => Err(DecodeError::NotAnObject),
    }
}

} // verus!

verus! {

fn names_of_request() -> (r: Vec<String>)
    ensures
        r@.len() == 4,
        r@[0]@ == "jsonrpc"@,
        r@[1]@ == "method"@,
        r@[2]@ == "params"@,
        r@[3]@ == "id"@,
        distinct_names(r@),
        forall|k: Seq<char>| named(r@, k) <==> request_names().contains(k),
{
    let r = vec![String::from_str("jsonrpc"), String::from_str("method"), String::from_str("params"), String::from_str("id")];
    proof {
        reveal_strlit("jsonrpc");
        reveal_strlit("method");
        reveal_strlit("params");
        reveal_strlit("id");
        assert(r@[0]@[0] != r@[1]@[0] && r@[1]@[0] != r@[2]@[0]);
        assert forall|k: Seq<char>| named(r@, k) <==> request_names().contains(k) by {
            if request_names().contains(k) {
                let i = choose|i: int| 0 <= i < 4 && request_names()[i] == k;
                assert(r@[i]@ == k);
            }
            if named(r@, k) {
                let i = choose|i: int| 0 <= i < 4 && #[trigger] r@[i]@ == k;
                assert(request_names()[i] == k);
            }
        }
    }
    r
}

fn names_of_response() -> (r: Vec<String>)
    ensures
        r@.len() == 4,
        r@[0]@ == "jsonrpc"@,
        r@[1]@ == "result"@,
        r@[2]@ == "error"@,
        r@[3]@ == "id"@,
        distinct_names(r@),
        forall|k: Seq<char>| named(r@, k) <==> response_names().contains(k),
{
    let r = vec![String::from_str("jsonrpc"), String::from_str("result"), String::from_str("error"), String::from_str("id")];
    proof {
        reveal_strlit("jsonrpc");
        reveal_strlit("result");
        reveal_strlit("error");
        reveal_strlit("id");
        assert(r@[0]@.len() == 7 && r@[1]@.len() == 6 && r@[2]@.len() == 5 && r@[3]@.len() == 2);
        assert forall|k: Seq<char>| named(r@, k) <==> response_names().contains(k) by {
            if response_names().contains(k) {
                let i = choose|i: int| 0 <= i < 4 && response_names()[i] == k;
                assert(r@[i]@ == k);
            }
            if named(r@, k) {
                let i = choose|i: int| 0 <= i < 4 && #[trigger] r@[i]@ == k;
                assert(response_names()[i] == k);
            }
        }
    }
    r
}

fn names_of_error() -> (r: Vec<String>)
    ensures
        r@.len() == 3,
        r@[0]@ == "code"@,
        r@[1]@ == "message"@,
        r@[2]@ == "data"@,
        distinct_names(r@),
        forall|k: Seq<char>| named(r@, k) <==> error_names().contains(k),
{
    let r = vec![String::from_str("code"), String::from_str("message"), String::from_str("data")];
    proof {
        reveal_strlit("code");
        reveal_strlit("message");
        reveal_strlit("data");
        assert(r@[0]@[0] != r@[2]@[0]);
        assert forall|k: Seq<char>| named(r@, k) <==> error_names().contains(k) by {
            if error_names().contains(k) {
                let i = choose|i: int| 0 <= i < 3 && error_names()[i] == k;
                assert(r@[i]@ == k);
            }
            if named(r@, k) {
                let i = choose|i: int| 0 <= i < 3 && #[trigger] r@[i]@ == k;
                assert(error_names()[i] == k);
            }
        }
    }
    r
}

fn is_version(v: &Option<Json>) -> (r: bool)
    ensures
        r == (*v matches Some(x) && x.is_str_of("2.0"@)),
{
    match v {
        Some(Json::Str(s)) => s.eq(&String::from_str("2.0")),
        _ => false,
    }
}

fn version_json() -> (j: Json)
    ensures
        j.is_str_of("2.0"@),
{
    Json::Str(String::from_str("2.0"))
}

pub fn id_to_json(id: Id) -> (j: Json)
    ensures
        j == id_json(id),
{
    match id {
        Id::Str(s) => Json::Str(s),
        Id::Num(n) => Json::UInt(n as u64),
    }
}

pub fn id_from_json(j: Json) -> (r: Option<Id>)
    ensures
        r == spec_id_from_json(j),
{
    match j {
        Json::Str(s) => Some(Id::Str(s)),
        Json::UInt(u) => {
            if u <= 0xffff_ffff {
                Some(Id::Num(u as u32))
            } else {
                None
            }
        },
        _ => None,
    }
}

fn code_to_json(c: i32) -> (j: Json)
    ensures
        j == code_json(c),
{
    if c < 0 {
        Json::Int(c as i64)
    } else {
        Json::UInt(c as u64)
    }
}

fn code_from_json(j: &Json) -> (r: Option<i32>)
    ensures
        r == spec_code_from_json(*j),
{
    match j {
        Json::Int(i) => {
            if -0x8000_0000 <= *i && *i <= 0x7fff_ffff {
                Some(*i as i32)
            } else {
                None
            }
        },
        Json::UInt(u) => {
            if *u <= 0x7fff_ffff {
                Some(*u as i32)
            } else {
                None
            }
        },
        _ => None,
    }
}

fn field(name: &str, value: Json) -> (r: (String, Json))
    ensures
        r.0@ == name@,
        r.1 == value,
{
    (String::from_str(name), value)
}

/// The JSON object of a request.
pub fn request_to_json(r: Request) -> (j: Json)
    ensures
        encodes_request(j, r),
{
    let Request { jsonrpc: _, method, params, id } = r;
    let mut fs: Vec<(String, Json)> = Vec::new();
    fs.push(field("jsonrpc", version_json()));
    fs.push(field("method", Json::Str(method)));
    fs.push(field("params", params));
    match id {
        Some(id) => {
            fs.push(field("id", id_to_json(id)));
        },
        None => {},
    }
    Json::Object(fs)
}

/// The request that a JSON value encodes, checked strictly.
pub fn request_from_json(j: Json) -> (r: Result<Request, DecodeError>)
    ensures
        r == spec_request_from_json(j),
{
    match j {
        Json::Object(fields) => {
            let ghost s = fields@;
            let names = names_of_request();
            let (mut slots, unknown) = take_members(fields, &names);
            if unknown {
                assert(!only_members(s, request_names())) by {
                    let j = choose|j: int| 0 <= j < s.len() && !named(names@, #[trigger] s[j].0@);
                    assert(!request_names().contains(s[j].0@));
                }
                return Err(DecodeError::UnknownMember);
            }
            assert(only_members(s, request_names())) by {
                assert forall|j: int| 0 <= j < s.len() implies #[trigger] request_names().contains(s[j].0@) by {
                    assert(named(names@, s[j].0@));
                }
            }
            assert(slots@[0] == member(s, names@[0]@));
            assert(slots@[1] == member(s, names@[1]@));
            assert(slots@[2] == member(s, names@[2]@));
            assert(slots@[3] == member(s, names@[3]@));
            let id = slots.pop().unwrap();
            let params = slots.pop().unwrap();
            let method = slots.pop().unwrap();
            let version = slots.pop().unwrap();
            if !is_version(&version) {
                return Err(DecodeError::BadVersion);
            }
            match method {
                Some(Json::Str(m)) => {
                    let id = match id {
                        None => None,
                        Some(v) => match id_from_json(v) {
                            Some(i) => Some(i),
                            None => {
                                return Err(DecodeError::BadId);
                            },
                        },
                    };
                    let params = match params {
                        Some(p) => p,
                        None => Json::Null,
                    };
                    Ok(Request { jsonrpc: Version::V2, method: m, params, id })
                },
                _ => Err(DecodeError::BadMethod),
            }
        },
        _ => Err(DecodeError::NotAnObject),
    }
}

/// The JSON object of an error.
pub fn error_to_json(e: Error) -> (j: Json)
    ensures
        encodes_error(j, e),
{
    let Error { code, message, data } = e;
    let mut fs: Vec<(String, Json)> = Vec::new();
    fs.push(field("code", code_to_json(code)));
    fs.push(field("message", Json::Str(message)));
    match data {
        Some(d) => {
            fs.push(field("data", d));
        },
        None => {},
    }
    Json::Object(fs)
}

/// The error object that a JSON value encodes, if it is one.
pub fn error_from_json(j: Json) -> (r: Option<Error>)
    ensures
        r == spec_error_from_json(j),
{
    match j {
        Json::Object(fields) => {
            let ghost s = fields@;
            let names = names_of_error();
            let (mut slots, unknown) = take_members(fields, &names);
            if unknown {
                assert(!only_members(s, error_names())) by {
                    let j = choose|j: int| 0 <= j < s.len() && !named(names@, #[trigger] s[j].0@);
                    assert(!error_names().contains(s[j].0@));
                }
                return None;
            }
            assert(only_members(s, error_names())) by {
                assert forall|j: int| 0 <= j < s.len() implies #[trigger] error_names().contains(s[j].0@) by {
                    assert(named(names@, s[j].0@));
                }
            }
            assert(slots@[0] == member(s, names@[0]@));
            assert(slots@[1] == member(s, names@[1]@));
            assert(slots@[2] == member(s, names@[2]@));
            let data = slots.pop().unwrap();
            let message = slots.pop().unwrap();
            let code = slots.pop().unwrap();
            let code = match code {
                Some(c) => code_from_json(&c),
                None => None,
            };
            match (code, message) {
                (Some(code), Some(Json::Str(message))) => Some(Error { code, message, data }),
                _ => None,
            }
        },
        _ => None,
    }
}

/// The JSON object of a response.
pub fn response_to_json(r: Response) -> (j: Json)
    requires
        r.wf(),
    ensures
        encodes_response(j, r),
{
    let Response { jsonrpc: _, result, error, id } = r;
    let mut fs: Vec<(String, Json)> = Vec::new();
    fs.push(field("jsonrpc", version_json()));
    match result {
        Some(v) => {
            fs.push(field("result", v));
        },
        None => {
            let e = error.unwrap();
            fs.push(field("error", error_to_json(e)));
        },
    }
    let idj = match id {
        Some(id) => id_to_json(id),
        None => Json::Null,
    };
    fs.push(field("id", idj));
    Json::Object(fs)
}

/// The response that a JSON value encodes, checked strictly.
pub fn response_from_json(j: Json) -> (r: Result<Response, DecodeError>)
    ensures
        r == spec_response_from_json(j),
        r matches Ok(resp) ==> resp.wf(),
{
    match j {
        Json::Object(fields) => {
            let ghost s = fields@;
            let names = names_of_response();
            let (mut slots, unknown) = take_members(fields, &names);
            if unknown {
                assert(!only_members(s, response_names())) by {
                    let j = choose|j: int| 0 <= j < s.len() && !named(names@, #[trigger] s[j].0@);
                    assert(!response_names().contains(s[j].0@));
                }
                return Err(DecodeError::UnknownMember);
            }
            assert(only_members(s, response_names())) by {
                assert forall|j: int| 0 <= j < s.len() implies #[trigger] response_names().contains(s[j].0@) by {
                    assert(named(names@, s[j].0@));
                }
            }
            assert(slots@[0] == member(s, names@[0]@));
            assert(slots@[1] == member(s, names@[1]@));
            assert(slots@[2] == member(s, names@[2]@));
            assert(slots@[3] == member(s, names@[3]@));
            let id = slots.pop().unwrap();
            let error = slots.pop().unwrap();
            let result = slots.pop().unwrap();
            let version = slots.pop().unwrap();
            if !is_version(&version) {
                return Err(DecodeError::BadVersion);
            }
            let id = match id {
                Some(Json::Null) => None,
                Some(v) => match id_from_json(v) {
                    Some(i) => Some(i),
                    None => {
                        return Err(DecodeError::BadId);
                    },
                },
                None => {
                    return Err(DecodeError::BadId);
                },
            };
            match (result, error) {
                (Some(v), None) => Ok(
                    Response { jsonrpc: Version::V2, result: Some(v), error: None, id },
                ),
                (None, Some(e)) => match error_from_json(e) {
                    Some(e) => Ok(Response { jsonrpc: Version::V2, result: None, error: Some(e), id }),
                    None => Err(DecodeError::BadError),
                },
                _ => Err(DecodeError::BadOutcome),
            }
        },
        _ => Err(DecodeError::NotAnObject),
    }
}

} // verus!

verus! {

/// Decoding the JSON object that encodes a request gives that request back.
pub proof fn lemma_request_round_trip(j: Json, r: Request)
    requires
        encodes_request(j, r),
    ensures
        spec_request_from_json(j) == Ok::<Request, DecodeError>(r),
{
    reveal_strlit("jsonrpc");
    reveal_strlit("method");
    reveal_strlit("params");
    reveal_strlit("id");
    reveal_with_fuel(member, 5);
    let s = j->Object_0@;
    assert(s[0].0@.len() == 7 && s[1].0@.len() == 6 && s[2].0@.len() == 6);
    assert(s[1].0@[0] != s[2].0@[0]);
    assert(only_members(s, request_names())) by {
        assert forall|i: int| 0 <= i < s.len() implies #[trigger] request_names().contains(s[i].0@) by {
            assert(request_names()[i] == s[i].0@);
        }
    }
    if r.id is Some {
        assert(s[3].0@.len() == 2);
        assert(s.drop_first().drop_first().drop_first().drop_first().len() == 0);
    } else {
        assert(s.drop_first().drop_first().drop_first().len() == 0);
    }
}

/// Decoding the JSON object that encodes an error gives that error back.
pub proof fn lemma_error_round_trip(j: Json, e: Error)
    requires
        encodes_error(j, e),
    ensures
        spec_error_from_json(j) == Some(e),
{
    reveal_strlit("code");
    reveal_strlit("message");
    reveal_strlit("data");
    reveal_with_fuel(member, 4);
    let s = j->Object_0@;
    assert(s[0].0@.len() == 4 && s[1].0@.len() == 7);
    assert(only_members(s, error_names())) by {
        assert forall|i: int| 0 <= i < s.len() implies #[trigger] error_names().contains(s[i].0@) by {
            assert(error_names()[i] == s[i].0@);
        }
    }
    if e.data is Some {
        assert(s[2].0@.len() == 4 && s[0].0@[0] != s[2].0@[0]);
        assert(s.drop_first().drop_first().drop_first().len() == 0);
    } else {
        assert(s.drop_first().drop_first().len() == 0);
        assert(s[0].0@[0] != "data"@[0]);
    }
    assert(member(s, "code"@) == Some(code_json(e.code)));
    assert(spec_code_from_json(code_json(e.code)) == Some(e.code));
    assert(member(s, "message"@) == Some(Json::Str(e.message)));
    assert(member(s, "data"@) == e.data);
}

/// Decoding the JSON object that encodes a well-formed response gives that
/// response back.
pub proof fn lemma_response_round_trip(j: Json, r: Response)
    requires
        r.wf(),
        encodes_response(j, r),
    ensures
        spec_response_from_json(j) == Ok::<Response, DecodeError>(r),
{
    reveal_strlit("jsonrpc");
    reveal_strlit("result");
    reveal_strlit("error");
    reveal_strlit("id");
    reveal_with_fuel(member, 4);
    let s = j->Object_0@;
    assert(s[0].0@.len() == 7 && s[2].0@.len() == 2);
    assert(s.drop_first().drop_first().drop_first().len() == 0);
    if r.result is Some {
        assert(s[1].0@.len() == 6);
    } else {
        assert(s[1].0@.len() == 5);
        lemma_error_round_trip(s[1].1, r.error->Some_0);
    }
    assert(only_members(s, response_names())) by {
        assert forall|i: int| 0 <= i < s.len() implies #[trigger] response_names().contains(s[i].0@) by {
            if i == 0 {
                assert(response_names()[0] == s[i].0@);
            } else if i == 1 && r.result is None {
                assert(response_names()[2] == s[i].0@);
            } else if i == 1 {
                assert(response_names()[1] == s[i].0@);
            } else {
                assert(response_names()[3] == s[i].0@);
            }
        }
    }
}

} // verus!
