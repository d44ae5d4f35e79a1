use srpc::codec::{length_prefix, FrameError, SimpleCodec, Type};
use srpc::json::Json;
use srpc::message::{Id, Request, Response};

fn frame(body: &[u8]) -> Vec<u8> {
    let mut out = length_prefix(body.len()).unwrap();
    out.extend_from_slice(body);
    out
}

fn drain_all<T: srpc::codec::Decode>(codec: &mut SimpleCodec<T>) -> Vec<Result<Type<T>, FrameError>> {
    let mut out = Vec::new();
    while let Some(item) = codec.drain() {
        out.push(item);
    }
    out
}

fn two_frames() -> Vec<u8> {
    let mut stream = frame(br#"{"jsonrpc":"2.0","method":"contains","params":{"data":"cool lib","elem":"lib"},"id":42}"#);
    stream.extend(frame(br#"[{"jsonrpc":"2.0","method":"set_data","params":{"is_cool":true}}]"#));
    stream
}

fn contains_request() -> Request {
    Request::new(
        "contains".to_string(),
        Json::Object(vec![
            ("data".to_string(), Json::Str("cool lib".to_string())),
            ("elem".to_string(), Json::Str("lib".to_string())),
        ]),
        Some(Id::Num(42)),
    )
}

fn set_data_request() -> Request {
    Request::new(
        "set_data".to_string(),
        Json::Object(vec![("is_cool".to_string(), Json::Bool(true))]),
        None,
    )
}

// A small deterministic generator, so that a failure can be replayed.
struct Lcg(u64);

impl Lcg {
    fn next(&mut self) -> u64 {
        self.0 = self.0.wrapping_mul(6364136223846793005).wrapping_add(1442695040888963407);
        self.0 >> 33
    }
}

#[test]
fn arbitrary() {
    // Random bodies, some of them valid requests, fed in chunks of random length.
    let mut rng = Lcg(7);
    let mut stream = Vec::new();
    let mut n_frames = 0;
    for i in 0..200 {
        if i % 3 == 0 {
            stream.extend(frame(br#"{"jsonrpc":"2.0","method":"m","params":null,"id":"x"}"#));
        } else {
            let len = (rng.next() % 300) as usize;
            let body: Vec<u8> = (0..len).map(|_| rng.next() as u8).collect();
            stream.extend(frame(&body));
        }
        n_frames += 1;
    }
    let mut whole: SimpleCodec<Request> = SimpleCodec::new();
    whole.extend(&stream);
    let expected = drain_all(&mut whole);
    assert_eq!(expected.len(), n_frames);

    let mut codec: SimpleCodec<Request> = SimpleCodec::new();
    let mut got = Vec::new();
    let mut pos = 0;
    while pos < stream.len() {
        let step = 1 + (rng.next() % 700) as usize;
        let end = std::cmp::min(stream.len(), pos + step);
        codec.extend(&stream[pos..end]);
        got.extend(drain_all(&mut codec));
        pos = end;
    }
    assert_eq!(got, expected);
    assert_eq!(codec.buffered_len(), 0);
    for (i, item) in got.iter().enumerate() {
        if i % 3 == 0 {
            assert_eq!(
                item,
                &Ok(Type::Single(Request::new("m".to_string(), Json::Null, Some(Id::Str("x".to_string())))))
            );
        }
    }
}

#[test]
fn zero_length_body() {
    // A zero-length frame at the start, in the middle and at the end.
    let valid = br#"{"jsonrpc":"2.0","method":"m","id":1}"#;
    let mut stream = frame(b"");
    stream.extend(frame(valid));
    stream.extend(frame(b""));
    stream.extend(frame(valid));
    stream.extend(frame(b""));
    let mut codec: SimpleCodec<Request> = SimpleCodec::new();
    codec.extend(&stream);
    let items = drain_all(&mut codec);
    assert_eq!(items.len(), 5);
    for i in [0, 2, 4] {
        assert!(matches!(items[i], Err(FrameError::Syntax(_))));
    }
    for i in [1, 3] {
        assert_eq!(items[i], Ok(Type::Single(Request::new("m".to_string(), Json::Null, Some(Id::Num(1))))));
    }
    assert_eq!(codec.buffered_len(), 0);
    assert!(codec.drain().is_none());
}

#[test]
fn framing_torture() {
    let stream = two_frames();
    for k in 0..stream.len() {
        let mut codec: SimpleCodec<Request> = SimpleCodec::new();
        codec.extend(&stream[..k]);
        let mut items = drain_all(&mut codec);
        codec.extend(&stream[k..]);
        items.extend(drain_all(&mut codec));
        assert_eq!(items.len(), 2, "split at {}", k);
        assert_eq!(items[0], Ok(Type::Single(contains_request())));
        assert_eq!(items[1], Ok(Type::Batched(vec![set_data_request()])));
    }
}

#[test]
fn byte_by_byte_feed_matches_single_push() {
    let stream = two_frames();
    let mut codec: SimpleCodec<Request> = SimpleCodec::new();
    let mut items = Vec::new();
    for b in &stream {
        codec.extend(std::slice::from_ref(b));
        items.extend(drain_all(&mut codec));
    }
    let mut whole: SimpleCodec<Request> = SimpleCodec::new();
    whole.extend(&stream);
    assert_eq!(items, drain_all(&mut whole));
}

#[test]
fn partial_frame_waits_for_the_rest() {
    let f = frame(br#"{"jsonrpc":"2.0","method":"m","id":1}"#);
    let mut codec: SimpleCodec<Request> = SimpleCodec::new();
    codec.extend(&f[..2]);
    assert!(codec.drain().is_none());
    assert_eq!(codec.buffered_len(), 2);
    codec.extend(&f[2..10]);
    assert!(codec.drain().is_none());
    assert_eq!(codec.buffered_len(), 10);
    codec.extend(&f[10..]);
    assert!(codec.drain().unwrap().is_ok());
    assert_eq!(codec.buffered_len(), 0);
}

#[test]
fn length_prefix_is_little_endian() {
    assert_eq!(length_prefix(0), Some(vec![0, 0, 0, 0]));
    assert_eq!(length_prefix(0x0102_0304), Some(vec![4, 3, 2, 1]));
    assert_eq!(length_prefix(0xffff_ffff), Some(vec![255, 255, 255, 255]));
    assert_eq!(length_prefix(0x1_0000_0000), None);
}

#[test]
fn decode_errors_do_not_poison_the_codec() {
    let mut stream = frame(b"not json");
    stream.extend(frame(br#"{"jsonrpc":"2.0","method":"m","id":1,"extra":0}"#));
    stream.extend(frame(br#"42"#));
    stream.extend(frame(br#"{"jsonrpc":"2.0","method":"m","id":1}"#));
    let mut codec: SimpleCodec<Request> = SimpleCodec::new();
    codec.extend(&stream);
    let items = drain_all(&mut codec);
    assert!(matches!(items[0], Err(FrameError::Syntax(_))));
    assert_eq!(items[1], Err(FrameError::Schema(srpc::message::DecodeError::UnknownMember)));
    assert_eq!(items[2], Err(FrameError::Schema(srpc::message::DecodeError::NotAnObject)));
    assert!(items[3].is_ok());
}

#[test]
fn batch_with_a_bad_element_is_one_error() {
    let f = frame(br#"[{"jsonrpc":"2.0","method":"m","id":1},{"jsonrpc":"1.0","method":"m","id":2}]"#);
    let mut codec: SimpleCodec<Request> = SimpleCodec::new();
    codec.extend(&f);
    assert_eq!(codec.drain(), Some(Err(FrameError::Schema(srpc::message::DecodeError::BadVersion))));
}

#[test]
fn empty_batch_decodes() {
    let mut codec: SimpleCodec<Request> = SimpleCodec::new();
    codec.extend(&frame(b"[]"));
    assert_eq!(codec.drain(), Some(Ok(Type::Batched(vec![]))));
}

#[test]
fn responses_decode_strictly() {
    let mut stream = frame(br#"{"jsonrpc":"2.0","result":true,"id":42}"#);
    stream.extend(frame(br#"{"jsonrpc":"2.0","error":{"code":-32601,"message":"Method not found"},"id":"x"}"#));
    stream.extend(frame(br#"{"jsonrpc":"2.0","result":1,"error":{"code":1,"message":"m"},"id":1}"#));
    stream.extend(frame(br#"{"jsonrpc":"2.0","result":null,"id":null}"#));
    stream.extend(frame(br#"{"jsonrpc":"2.0","result":1}"#));
    let mut codec: SimpleCodec<Response> = SimpleCodec::new();
    codec.extend(&stream);
    let items = drain_all(&mut codec);
    assert_eq!(items[0], Ok(Type::Single(Response::from_result(Json::Bool(true), Id::Num(42)))));
    assert_eq!(
        items[1],
        Ok(Type::Single(Response::from_error_data(
            srpc::ErrorKind::MethodNotFound,
            None,
            Id::Str("x".to_string())
        )))
    );
    assert_eq!(items[2], Err(FrameError::Schema(srpc::message::DecodeError::BadOutcome)));
    match &items[3] {
        Ok(Type::Single(r)) => {
            assert_eq!(r.result, Some(Json::Null));
            assert_eq!(r.id, None);
        }
        other => panic!("unexpected {:?}", other),
    }
    assert_eq!(items[4], Err(FrameError::Schema(srpc::message::DecodeError::BadId)));
}

#[test]
fn frames_written_in_order_are_read_in_order() {
    let bodies: Vec<&[u8]> = vec![
        br#"{"jsonrpc":"2.0","method":"a","id":1}"#,
        br#"{"jsonrpc":"2.0","method":"b"}"#,
        br#"{"jsonrpc":"2.0","method":"c","id":2}"#,
    ];
    let mut wire = Vec::new();
    for b in &bodies {
        wire.extend(length_prefix(b.len()).unwrap());
        wire.extend_from_slice(b);
    }
    let mut codec: SimpleCodec<Request> = SimpleCodec::new();
    codec.extend(&wire);
    let methods: Vec<String> = drain_all(&mut codec)
        .into_iter()
        .map(|item| match item {
            Ok(Type::Single(r)) => r.method,
            other => panic!("unexpected {:?}", other),
        })
        .collect();
    assert_eq!(methods, vec!["a", "b", "c"]);
}
