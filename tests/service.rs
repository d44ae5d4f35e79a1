use std::cell::Cell;

use serde_json::Value;
use srpc::codec::{SimpleCodec, Type};
use srpc::json::Json;
use srpc::message::Request;
use srpc::server::{Context, PeerAddr};
use srpc::service::{describe, Arg, MethodDecl, ParamDecl, ParamType, ParamsError, Service};
use srpc::{Error, ErrorKind};

fn ctx() -> Context {
    Context { caller_addr: PeerAddr::V4([127, 0, 0, 1], 8080) }
}

fn decl(name: &str, params: &[(&str, ParamType)]) -> MethodDecl {
    MethodDecl {
        name: name.to_string(),
        params: params.iter().map(|(n, t)| ParamDecl { name: n.to_string(), ty: *t }).collect(),
    }
}

fn methods() -> Vec<MethodDecl> {
    vec![
        decl("contains", &[("data", ParamType::Str), ("elem", ParamType::Str)]),
        decl("set_data", &[("is_cool", ParamType::Bool)]),
        decl("max", &[("a", ParamType::I32), ("b", ParamType::I32)]),
    ]
}

fn run(i: usize, args: Vec<Arg>, calls: &Cell<u32>) -> Result<Option<Json>, Error> {
    calls.set(calls.get() + 1);
    match (i, args.as_slice()) {
        (0, [Arg::Str(data), Arg::Str(elem)]) => Ok(Some(Json::Bool(data.contains(elem.as_str())))),
        (1, [Arg::Bool(_)]) => Ok(None),
        (2, [Arg::I32(a), Arg::I32(b)]) => Ok(Some(Json::Int(std::cmp::max(*a, *b) as i64))),
        _ => Err(Error::new(ErrorKind::InternalError, None)),
    }
}

// Decodes one framed request text, as the server's reader would.
fn message(text: &str) -> Type<Request> {
    let mut bytes = srpc::codec::length_prefix(text.len()).unwrap();
    bytes.extend_from_slice(text.as_bytes());
    let mut codec: SimpleCodec<Request> = SimpleCodec::new();
    codec.extend(&bytes);
    codec.drain().unwrap().unwrap()
}

fn json(text: &str) -> Value {
    serde_json::from_str(text).unwrap()
}

fn reply(text: &str, calls: &Cell<u32>) -> Option<Value> {
    let service = Service::new(methods(), |i: usize, _c: Context, args: Vec<Arg>| run(i, args, calls));
    service.handle(ctx(), message(text)).map(|b| serde_json::from_slice(&b).unwrap())
}

#[test]
fn contains_call_is_answered() {
    let calls = Cell::new(0);
    let r = reply(
        r#"{"jsonrpc":"2.0","method":"contains","params":{"data":"cool lib","elem":"lib"},"id":42}"#,
        &calls,
    );
    assert_eq!(r, Some(json(r#"{"jsonrpc":"2.0","result":true,"id":42}"#)));
    assert_eq!(calls.get(), 1);
}

#[test]
fn notification_gets_no_reply() {
    let calls = Cell::new(0);
    let r = reply(r#"{"jsonrpc":"2.0","method":"set_data","params":{"is_cool":true}}"#, &calls);
    assert_eq!(r, None);
    assert_eq!(calls.get(), 1);
}

#[test]
fn unknown_method_is_reported() {
    let calls = Cell::new(0);
    let r = reply(r#"{"jsonrpc":"2.0","method":"nope","params":null,"id":"x"}"#, &calls);
    assert_eq!(
        r,
        Some(json(r#"{"jsonrpc":"2.0","error":{"code":-32601,"message":"Method not found"},"id":"x"}"#))
    );
    assert_eq!(calls.get(), 0);
}

#[test]
fn invalid_params_are_reported() {
    let calls = Cell::new(0);
    let r = reply(r#"{"jsonrpc":"2.0","method":"max","params":{"a":"no"},"id":7}"#, &calls).unwrap();
    assert_eq!(r["error"]["code"], json("-32602"));
    assert_eq!(r["error"]["message"], json(r#""Invalid params""#));
    assert_eq!(r["error"]["data"], json(r#""invalid type for parameter `a`""#));
    assert_eq!(r["id"], json("7"));
    assert!(r.get("result").is_none());
    assert_eq!(calls.get(), 0);
}

#[test]
fn batch_is_answered_in_order() {
    let calls = Cell::new(0);
    let r = reply(
        r#"[{"jsonrpc":"2.0","method":"contains","params":{"data":"ab","elem":"a"},"id":1},{"jsonrpc":"2.0","method":"nope","params":null,"id":2}]"#,
        &calls,
    );
    assert_eq!(
        r,
        Some(json(
            r#"[{"jsonrpc":"2.0","result":true,"id":1},{"jsonrpc":"2.0","error":{"code":-32601,"message":"Method not found"},"id":2}]"#
        ))
    );
}

#[test]
fn batch_skips_notifications() {
    let calls = Cell::new(0);
    let r = reply(
        r#"[{"jsonrpc":"2.0","method":"set_data","params":{"is_cool":false}},{"jsonrpc":"2.0","method":"max","params":[3,9],"id":5},{"jsonrpc":"2.0","method":"set_data","params":[true]}]"#,
        &calls,
    );
    assert_eq!(r, Some(json(r#"[{"jsonrpc":"2.0","result":9,"id":5}]"#)));
    assert_eq!(calls.get(), 3);
}

#[test]
fn batch_of_notifications_gets_empty_array() {
    let calls = Cell::new(0);
    let r = reply(
        r#"[{"jsonrpc":"2.0","method":"set_data","params":{"is_cool":false}},{"jsonrpc":"2.0","method":"set_data","params":{"is_cool":true}}]"#,
        &calls,
    );
    assert_eq!(r, Some(json("[]")));
    assert_eq!(calls.get(), 2);
}

#[test]
fn unit_result_is_null() {
    let calls = Cell::new(0);
    let r = reply(r#"{"jsonrpc":"2.0","method":"set_data","params":{"is_cool":true},"id":3}"#, &calls);
    assert_eq!(r, Some(json(r#"{"jsonrpc":"2.0","result":null,"id":3}"#)));
}

#[test]
fn params_by_position_and_extra_members() {
    let calls = Cell::new(0);
    let r = reply(r#"{"jsonrpc":"2.0","method":"max","params":[-4,-9],"id":1}"#, &calls);
    assert_eq!(r, Some(json(r#"{"jsonrpc":"2.0","result":-4,"id":1}"#)));
    let r = reply(r#"{"jsonrpc":"2.0","method":"max","params":{"b":2,"a":1,"c":"x"},"id":2}"#, &calls);
    assert_eq!(r, Some(json(r#"{"jsonrpc":"2.0","result":2,"id":2}"#)));
}

#[test]
fn params_errors_each_kind() {
    let calls = Cell::new(0);
    let data = |text: &str| reply(text, &calls).unwrap()["error"]["data"].clone();
    assert_eq!(
        data(r#"{"jsonrpc":"2.0","method":"max","params":{"a":1},"id":1}"#),
        json(r#""missing parameter `b`""#)
    );
    assert_eq!(
        data(r#"{"jsonrpc":"2.0","method":"max","params":[1],"id":1}"#),
        json(r#""wrong number of parameters""#)
    );
    assert_eq!(
        data(r#"{"jsonrpc":"2.0","method":"max","params":7,"id":1}"#),
        json(r#""parameters must be an object or an array""#)
    );
    assert_eq!(
        data(r#"{"jsonrpc":"2.0","method":"max","params":{"a":1,"b":3000000000},"id":1}"#),
        json(r#""invalid type for parameter `b`""#)
    );
}

#[test]
fn describe_names_the_parameter() {
    let ps = vec![ParamDecl { name: "a".to_string(), ty: ParamType::I32 }];
    assert_eq!(describe(&ps, ParamsError::Missing(0)), "missing parameter `a`");
    assert_eq!(describe(&ps, ParamsError::WrongType(5)), "invalid type for parameter");
}

#[test]
fn handler_errors_become_error_responses() {
    let service = Service::new(
        vec![decl("fail", &[])],
        |_i: usize, _c: Context, _a: Vec<Arg>| -> Result<Option<Json>, Error> {
            Err(Error::new(ErrorKind::ServerError(3), Some(Json::Str("boom".to_string()))))
        },
    );
    let b = service.handle(ctx(), message(r#"{"jsonrpc":"2.0","method":"fail","id":9}"#)).unwrap();
    let v: Value = serde_json::from_slice(&b).unwrap();
    assert_eq!(
        v,
        json(r#"{"jsonrpc":"2.0","error":{"code":-32003,"message":"Server error","data":"boom"},"id":9}"#)
    );
}

#[test]
fn duplicate_parameter_names_are_detected() {
    let ok = Service::new(methods(), |_i: usize, _c: Context, _a: Vec<Arg>| -> Result<Option<Json>, Error> { Ok(None) });
    assert!(ok.is_wf());
    let bad = decl("twice", &[("a", ParamType::I32), ("b", ParamType::Bool), ("a", ParamType::Str)]);
    assert!(!bad.names_distinct());
    let service = Service::new(vec![bad], |_i: usize, _c: Context, _a: Vec<Arg>| -> Result<Option<Json>, Error> { Ok(None) });
    assert!(!service.is_wf());
}
