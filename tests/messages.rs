use serde_json::Value;
use srpc::client::{create_data, prepare_call, start_call, CallError};
use srpc::codec::FrameError;
use srpc::json::Json;
use srpc::message::{describe_decode_error, request_from_json, request_to_json, response_from_json, response_to_json, DecodeError, Id, Request, Response};
use srpc::protocol::{RpcError, RpcId, SrpcError, SrpcRequest, SrpcResponse, STATUS_NOT_FOUND, STATUS_SUCCESS};
use srpc::server::{failure_response, reply_batch, reply_single};
use srpc::transport::{Delivery, Waiters};
use srpc::wire::{encode_request, encode_response};
use srpc::{Error, ErrorKind};

fn json(text: &str) -> Value {
    serde_json::from_str(text).unwrap()
}

fn value(bytes: &[u8]) -> Value {
    serde_json::from_slice(bytes).unwrap()
}

fn s(text: &str) -> String {
    text.to_string()
}

#[test]
fn error_kinds_have_canonical_codes() {
    assert_eq!(ErrorKind::ParseError.code(), -32700);
    assert_eq!(ErrorKind::InvalidRequest.code(), -32600);
    assert_eq!(ErrorKind::MethodNotFound.code(), -32601);
    assert_eq!(ErrorKind::InvalidParams.code(), -32602);
    assert_eq!(ErrorKind::InternalError.code(), -32603);
    assert_eq!(ErrorKind::ServerError(0).code(), -32000);
    assert_eq!(ErrorKind::ServerError(42).code(), -32042);
    assert_eq!(ErrorKind::ServerError(500).code(), -32099);
    assert_eq!(ErrorKind::ParseError.message(), "Parse error");
    assert_eq!(ErrorKind::InvalidRequest.message(), "Invalid Request");
    assert_eq!(ErrorKind::MethodNotFound.message(), "Method not found");
    assert_eq!(ErrorKind::InvalidParams.message(), "Invalid params");
    assert_eq!(ErrorKind::InternalError.message(), "Internal error");
    assert_eq!(ErrorKind::ServerError(1).message(), "Server error");
}

#[test]
fn error_new_takes_code_and_message_of_kind() {
    let e = Error::new(ErrorKind::InvalidParams, Some(Json::Bool(false)));
    assert_eq!(e.code, -32602);
    assert_eq!(e.message, "Invalid params");
    assert_eq!(e.data, Some(Json::Bool(false)));
}

#[test]
fn request_text_round_trips() {
    let r = Request::new(s("contains"), Json::Array(vec![Json::UInt(1), Json::Int(-2)]), Some(Id::Str(s("q"))));
    let text = encode_request(r);
    assert_eq!(
        value(&text),
        json(r#"{"jsonrpc":"2.0","method":"contains","params":[1,-2],"id":"q"}"#)
    );
    let n = Request::new(s("note"), Json::Null, None);
    assert_eq!(value(&encode_request(n)), json(r#"{"jsonrpc":"2.0","method":"note","params":null}"#));
}

#[test]
fn request_json_round_trips() {
    let r = Request::new(s("m"), Json::Object(vec![(s("k"), Json::Str(s("v")))]), Some(Id::Num(5)));
    let back = request_from_json(request_to_json(r));
    assert_eq!(
        back,
        Ok(Request::new(s("m"), Json::Object(vec![(s("k"), Json::Str(s("v")))]), Some(Id::Num(5))))
    );
}

#[test]
fn response_json_round_trips() {
    let r = Response::from_error_data(ErrorKind::InternalError, Some(Json::UInt(3)), Id::Num(1));
    let back = response_from_json(response_to_json(r));
    assert_eq!(back, Ok(Response::from_error_data(ErrorKind::InternalError, Some(Json::UInt(3)), Id::Num(1))));
}

#[test]
fn request_decoding_is_strict() {
    let obj = |fields: Vec<(&str, Json)>| Json::Object(fields.into_iter().map(|(k, v)| (s(k), v)).collect());
    let v2 = || Json::Str(s("2.0"));
    assert_eq!(request_from_json(Json::Null), Err(DecodeError::NotAnObject));
    assert_eq!(
        request_from_json(obj(vec![("jsonrpc", v2()), ("method", Json::Str(s("m"))), ("x", Json::Null)])),
        Err(DecodeError::UnknownMember)
    );
    assert_eq!(
        request_from_json(obj(vec![("jsonrpc", Json::Str(s("1.0"))), ("method", Json::Str(s("m")))])),
        Err(DecodeError::BadVersion)
    );
    assert_eq!(request_from_json(obj(vec![("jsonrpc", v2()), ("method", Json::UInt(1))])), Err(DecodeError::BadMethod));
    assert_eq!(
        request_from_json(obj(vec![("jsonrpc", v2()), ("method", Json::Str(s("m"))), ("id", Json::Int(-1))])),
        Err(DecodeError::BadId)
    );
    assert_eq!(
        request_from_json(obj(vec![("jsonrpc", v2()), ("method", Json::Str(s("m"))), ("id", Json::UInt(1 << 32))])),
        Err(DecodeError::BadId)
    );
    assert_eq!(
        request_from_json(obj(vec![("jsonrpc", v2()), ("method", Json::Str(s("m"))), ("id", Json::Null)])),
        Err(DecodeError::BadId)
    );
    assert_eq!(
        request_from_json(obj(vec![("id", Json::UInt(4294967295)), ("method", Json::Str(s("m"))), ("jsonrpc", v2())])),
        Ok(Request::new(s("m"), Json::Null, Some(Id::Num(4294967295))))
    );
}

#[test]
fn response_text_has_one_of_result_and_error() {
    let ok = encode_response(Response::from_result(Json::Bool(true), Id::Num(42)));
    assert_eq!(value(&ok), json(r#"{"jsonrpc":"2.0","result":true,"id":42}"#));
    let err = encode_response(Response::from_error(Error::new(ErrorKind::MethodNotFound, None), Id::Str(s("x"))));
    assert_eq!(
        value(&err),
        json(r#"{"jsonrpc":"2.0","error":{"code":-32601,"message":"Method not found"},"id":"x"}"#)
    );
}

#[test]
fn reply_single_and_batch() {
    assert_eq!(reply_single(None, Ok(Json::Null)), None);
    let b = reply_single(Some(Id::Num(1)), Err(Error::new(ErrorKind::InternalError, None))).unwrap();
    assert_eq!(
        value(&b),
        json(r#"{"jsonrpc":"2.0","error":{"code":-32603,"message":"Internal error"},"id":1}"#)
    );
    let b = reply_batch(
        vec![Some(Id::Num(1)), None, Some(Id::Str(s("b")))],
        vec![Ok(Json::UInt(1)), Ok(Json::UInt(2)), Ok(Json::UInt(3))],
    );
    assert_eq!(value(&b), json(r#"[{"jsonrpc":"2.0","result":1,"id":1},{"jsonrpc":"2.0","result":3,"id":"b"}]"#));
    assert_eq!(reply_batch(vec![None, None], vec![Ok(Json::Null), Ok(Json::Null)]), b"[]".to_vec());
    assert_eq!(reply_batch(vec![], vec![]), b"[]".to_vec());
}

#[test]
fn failure_responses_have_null_id() {
    let r = failure_response(FrameError::Syntax(s("EOF while parsing a value")));
    assert_eq!(
        value(&encode_response(r)),
        json(r#"{"jsonrpc":"2.0","error":{"code":-32700,"message":"Parse error","data":"EOF while parsing a value"},"id":null}"#)
    );
    let r = failure_response(FrameError::Schema(DecodeError::BadMethod));
    assert_eq!(
        value(&encode_response(r)),
        json(r#"{"jsonrpc":"2.0","error":{"code":-32600,"message":"Invalid Request","data":"`method` must be a string"},"id":null}"#)
    );
}

#[test]
fn waiters_deliver_each_response_once() {
    let mut w: Waiters<&str> = Waiters::new();
    assert_eq!(w.add_receiver(1, "a"), Ok(()));
    assert_eq!(w.add_receiver(2, "b"), Ok(()));
    assert_eq!(w.add_receiver(1, "c"), Err("c"));
    assert!(w.contains(1));
    match w.route(Response::from_result(Json::Null, Id::Num(1))) {
        Delivery::Deliver(x, r) => {
            assert_eq!(x, "a");
            assert_eq!(r.id, Some(Id::Num(1)));
        }
        Delivery::Unexpected(_) => panic!("expected a delivery"),
    }
    assert!(!w.contains(1));
    assert!(matches!(w.route(Response::from_result(Json::Null, Id::Num(1))), Delivery::Unexpected(_)));
    assert!(matches!(w.route(Response::from_result(Json::Null, Id::Str(s("2")))), Delivery::Unexpected(_)));
    assert_eq!(w.len(), 1);
    assert_eq!(w.take(2), Some("b"));
    assert_eq!(w.take(2), None);
    assert_eq!(w.add_receiver(1, "d"), Ok(()));
}

#[test]
fn closing_releases_every_waiter() {
    let mut w: Waiters<u8> = Waiters::new();
    for i in 0..5u8 {
        assert_eq!(w.add_receiver(10 + i as u32, i), Ok(()));
    }
    assert_eq!(w.take(12), Some(2));
    assert_eq!(w.close(), vec![0, 1, 3, 4]);
    assert_eq!(w.len(), 0);
    assert_eq!(w.close(), Vec::<u8>::new());
}

#[test]
fn prepare_call_assigns_the_id_and_registers() {
    let mut w: Waiters<&str> = Waiters::new();
    let req = Request::new(s("contains"), Json::Null, Some(Id::Str(s("caller set"))));
    let bytes = prepare_call(&mut w, req, 77, "waiter").unwrap();
    assert_eq!(value(&bytes), json(r#"{"jsonrpc":"2.0","method":"contains","params":null,"id":77}"#));
    assert!(w.contains(77));
    let again = prepare_call(&mut w, Request::new(s("m"), Json::Null, None), 77, "second");
    assert_eq!(again, Err(CallError::IdTaken("second", Request::new(s("m"), Json::Null, None))));
    assert_eq!(w.len(), 1);
}

#[test]
fn start_call_uses_a_fresh_id() {
    let mut w: Waiters<u8> = Waiters::new();
    let (n, r) = start_call(&mut w, Request::new(s("m"), Json::Null, None), 1);
    let n = n.unwrap();
    let bytes = r.unwrap();
    assert_eq!(value(&bytes)["id"], json(&n.to_string()));
    assert!(w.contains(n));
}

#[test]
fn notification_text_has_no_id() {
    let bytes = create_data(Request::new(s("set_data"), Json::Object(vec![(s("is_cool"), Json::Bool(true))]), None)).unwrap();
    assert_eq!(value(&bytes), json(r#"{"jsonrpc":"2.0","method":"set_data","params":{"is_cool":true}}"#));
}

#[test]
fn floats_are_carried_through() {
    let mut codec: srpc::codec::SimpleCodec<Request> = srpc::codec::SimpleCodec::new();
    let body = br#"{"jsonrpc":"2.0","method":"m","params":[1.5,-0.25],"id":1}"#;
    let mut f = srpc::codec::length_prefix(body.len()).unwrap();
    f.extend_from_slice(body);
    codec.extend(&f);
    let req = match codec.drain() {
        Some(Ok(srpc::codec::Type::Single(r))) => r,
        other => panic!("unexpected {:?}", other),
    };
    assert_eq!(value(&encode_request(req)), json(r#"{"jsonrpc":"2.0","method":"m","params":[1.5,-0.25],"id":1}"#));
}

#[test]
fn route_envelopes() {
    let r = SrpcRequest::new("str-service", "contains", 5u8);
    assert_eq!((r.route, r.method_name, r.data), ("str-service", "contains", 5u8));
    let p = SrpcResponse::new(STATUS_SUCCESS, "ok");
    assert_eq!((p.status_code, p.data), (200, "ok"));
    assert_eq!(SrpcError(STATUS_NOT_FOUND).0, 404);
    assert_ne!(RpcId::Number(1), RpcId::Str(s("1")));
    assert_eq!(RpcError::new(-32600, s("Invalid Request"), None).code, -32600);
}

#[test]
fn decode_errors_are_described() {
    assert_eq!(describe_decode_error(DecodeError::NotAnObject), "expected a JSON object");
    assert_eq!(describe_decode_error(DecodeError::UnknownMember), "unknown member");
    assert_eq!(describe_decode_error(DecodeError::BadVersion), "`jsonrpc` must be \"2.0\"");
    assert_eq!(describe_decode_error(DecodeError::BadId), "`id` must be a string or an unsigned 32-bit integer");
    assert_eq!(
        describe_decode_error(DecodeError::BadOutcome),
        "exactly one of `result` and `error` must be present"
    );
    assert_eq!(describe_decode_error(DecodeError::BadError), "`error` must be an error object");
}
