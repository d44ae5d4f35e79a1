//! The frame codec: a push-driven state machine that cuts a byte stream into
//! length-prefixed frames and decodes each frame body as one message.
//!
//! Every frame is a 4-byte little-endian length `L` followed by `L` bytes of
//! JSON: a single object or an array of objects.

use vstd::prelude::*;

use crate::json::Json;
use crate::message::{
    request_from_json, response_from_json, spec_request_from_json, spec_response_from_json,
    DecodeError, Request, Response,
};
use crate::wire::{json_parse, parse_json};

verus! {

#[verifier::external_type_specification]
#[verifier::external_body]
pub struct ExBytesMut(bytes::BytesMut);

/// The bytes that a buffer holds.
pub uninterp spec fn buffered(b: bytes::BytesMut) -> Seq<u8>;

/// Relies on `BytesMut::new`: an empty buffer.
#[verifier::external_body]
fn buf_new() -> (r: bytes::BytesMut)
    ensures
        buffered(r) == Seq::<u8>::empty(),
{
    bytes::BytesMut::new()
}

/// Relies on `BytesMut::extend_from_slice`: appends the bytes. It panics only
/// when the new length overflows, which `requires` leaves out.
#[verifier::external_body]
fn buf_put(b: &mut bytes::BytesMut, data: &[u8])
    requires
        buffered(*old(b)).len() + data@.len() <= isize::MAX,
    ensures
        buffered(*final(b)) == buffered(*old(b)) + data@,
{
    b.extend_from_slice(data)
}

/// Relies on `BytesMut::len`: the number of bytes held.
#[verifier::external_body]
fn buf_len(b: &bytes::BytesMut) -> (r: usize)
    ensures
        r == buffered(*b).len(),
{
    b.len()
}

/// Relies on `<BytesMut as Buf>::advance`: drops the first `n` bytes. It
/// panics past the end, which `requires` leaves out.
#[verifier::external_body]
fn buf_advance(b: &mut bytes::BytesMut, n: usize)
    requires
        n <= buffered(*old(b)).len(),
    ensures
        buffered(*final(b)) == buffered(*old(b)).skip(n as int),
{
    bytes::Buf::advance(b, n)
}

/// Relies on `<BytesMut as AsRef<[u8]>>::as_ref`: the bytes held, as a slice.
#[verifier::external_body]
fn buf_bytes(b: &bytes::BytesMut) -> (r: &[u8])
    ensures
        r@ == buffered(*b),
{
    b.as_ref()
}

/// Length of the frame header.
pub const HEADER_LEN: usize = 4;

/// The little-endian number in the first four bytes of `s`.
pub open spec fn le_u32(s: Seq<u8>) -> nat
    recommends
        s.len() >= 4,
{
    (s[0] + 256 * s[1] + 65536 * s[2] + 16777216 * s[3]) as nat
}

/// The frame bodies at the front of a byte stream, in order, and what is left
/// after the last complete frame.
pub open spec fn split_frames(s: Seq<u8>) -> (Seq<Seq<u8>>, Seq<u8>)
    decreases s.len(),
{
    if s.len() < 4 || s.len() - 4 < le_u32(s) {
        (Seq::empty(), s)
    } else {
        let n = le_u32(s) as int;
        let (bodies, rest) = split_frames(s.skip(4 + n));
        (seq![s.subrange(4, 4 + n)] + bodies, rest)
    }
}

proof fn lemma_split_rest_len(s: Seq<u8>)
    ensures
        split_frames(s).1.len() <= s.len(),
    decreases s.len(),
{
    if !(s.len() < 4 || s.len() - 4 < le_u32(s)) {
        lemma_split_rest_len(s.skip(4 + le_u32(s) as int));
    }
}

/// A message: one value, or a batch of them.
#[derive(Debug, PartialEq)]
pub enum Type<T> {
    Single(T),
    Batched(Vec<T>),
}

/// A frame body that is not a message.
#[derive(Debug, PartialEq)]
pub enum FrameError {
    /// Not JSON; serde_json's message.
    Syntax(String),
    /// JSON, but not of the message's shape.
    Schema(DecodeError),
}

/// A value that a JSON object decodes to, strictly.
pub trait Decode: Sized {
    spec fn spec_decode(j: Json) -> Result<Self, DecodeError>;

    fn decode(j: Json) -> (r: Result<Self, DecodeError>)
        ensures
            r == Self::spec_decode(j),
    ;
}

impl Decode for Request {
    open spec fn spec_decode(j: Json) -> Result<Request, DecodeError> {
        spec_request_from_json(j)
    }

    fn decode(j: Json) -> (r: Result<Request, DecodeError>) {
        request_from_json(j)
    }
}

impl Decode for Response {
    open spec fn spec_decode(j: Json) -> Result<Response, DecodeError> {
        spec_response_from_json(j)
    }

    fn decode(j: Json) -> (r: Result<Response, DecodeError>) {
        response_from_json(j)
    }
}

/// Decodes each value in turn; the first failure is the outcome.
pub open spec fn decode_seq<T: Decode>(s: Seq<Json>) -> Result<Seq<T>, DecodeError>
    decreases s.len(),
{
    if s.len() == 0 {
        Ok(Seq::empty())
    } else {
        match T::spec_decode(s[0]) {
            Err(e) => Err(e),
            Ok(t) => match decode_seq::<T>(s.drop_first()) {
                Err(e) => Err(e),
                Ok(rest) => Ok(seq![t] + rest),
            },
        }
    }
}

/// `m` is what `j` decodes to as a message: an object is a single value, an
/// array a batch of values, anything else is not a message.
pub open spec fn message_matches<T: Decode>(j: Json, m: Result<Type<T>, DecodeError>) -> bool {
    match j {
        Json::Object(_) => match T::spec_decode(j) {
            Ok(t) => m == Ok::<Type<T>, DecodeError>(Type::Single(t)),
            Err(e) => m == Err::<Type<T>, DecodeError>(e),
        },
        Json::Array(items) => match decode_seq::<T>(items@) {
            Ok(ts) => m matches Ok(Type::Batched(v)) && v@ == ts,
            Err(e) => m == Err::<Type<T>, DecodeError>(e),
        },
        _ => m == Err::<Type<T>, DecodeError>(DecodeError::NotAnObject),
    }
}

/// `item` is what the frame body `body` decodes to.
pub open spec fn decodes_to<T: Decode>(body: Seq<u8>, item: Result<Type<T>, FrameError>) -> bool {
    match json_parse(body) {
        Err(msg) => item matches Err(FrameError::Syntax(s)) && s@ == msg,
        Ok(j) => match item {
            Ok(m) => message_matches::<T>(j, Ok(m)),
            Err(FrameError::Schema(e)) => message_matches::<T>(j, Err(e)),
            Err(FrameError::Syntax(_)) => false,
        },
    }
}

/// Decodes a JSON value as a message.
pub fn message_from_json<T: Decode>(j: Json) -> (r: Result<Type<T>, DecodeError>)
    ensures
        message_matches::<T>(j, r),
{
    match j {
        Json::Object(fields) => {
            match T::decode(Json::Object(fields)) {
                Ok(t) => Ok(Type::Single(t)),
                Err(e) => Err(e),
            }
        },
        Json::Array(items) => {
            let ghost items0 = items;
            let ghost s = items@;
            let mut items = items;
            let mut out: Vec<T> = Vec::new();
            while items.len() > 0
                invariant
                    j == Json::Array(items0),
                    s == items0@,
                    s.len() == out@.len() + items@.len(),
                    items@ == s.skip(out@.len() as int),
                    decode_seq::<T>(s) == match decode_seq::<T>(items@) {
                        Ok(rest) => Ok(out@ + rest),
                        Err(e) => Err::<Seq<T>, DecodeError>(e),
                    },
                decreases items.len(),
            {
                let ghost before = items@;
                let item = items.remove(0);
                assert(before.drop_first() =~= items@);
                match T::decode(item) {
                    Ok(t) => {
                        let ghost old_out = out@;
                        out.push(t);
                        proof {
                            match decode_seq::<T>(items@) {
                                Ok(rest) => {
                                    assert(old_out + (seq![t] + rest) =~= out@ + rest);
                                },
                                Err(_) => {},
                            }
                            assert(s.skip(out@.len() as int) =~= items@);
                        }
                    },
                    Err(e) => {
                        assert(decode_seq::<T>(before) == Err::<Seq<T>, DecodeError>(e));
                        return Err(e);
                    },
                }
            }
            assert(out@ + Seq::<T>::empty() =~= out@);
            Ok(Type::Batched(out))
        },
        _ => Err(DecodeError::NotAnObject),
    }
}

/// Decodes one frame body.
pub fn decode_frame<T: Decode>(body: &[u8]) -> (r: Result<Type<T>, FrameError>)
    ensures
        decodes_to::<T>(body@, r),
        body@.len() == 0 ==> r matches Err(FrameError::Syntax(_)),
{
    match parse_json(body) {
        Ok(j) => match message_from_json::<T>(j) {
            Ok(m) => Ok(m),
            Err(e) => Err(FrameError::Schema(e)),
        },
        Err(msg) => Err(FrameError::Syntax(msg)),
    }
}

} // verus!

verus! {

/// What the codec is waiting for.
enum State {
    OnHeader,
    OnBody(usize),
}

/// The abstract state of a codec: the bodies of the frames decoded but not yet
/// drained, oldest first, and the bytes of the frame not yet complete.
pub struct CodecView {
    pub pending: Seq<Seq<u8>>,
    pub rest: Seq<u8>,
}

impl CodecView {
    /// The state after `data` has been pushed.
    pub open spec fn fed(self, data: Seq<u8>) -> CodecView {
        let (bodies, rest) = split_frames(self.rest + data);
        CodecView { pending: self.pending + bodies, rest }
    }
}

/// Cuts a byte stream into frames and decodes each one as a `Type<T>`.
/// A body that fails to decode is queued as an error; the codec goes on with
/// the next frame.
pub struct SimpleCodec<T> {
    bytes: bytes::BytesMut,
    parsed_buf: std::collections::VecDeque<Result<Type<T>, FrameError>>,
    state: State,
    pending: Ghost<Seq<Seq<u8>>>,
    rest: Ghost<Seq<u8>>,
}

impl<T: Decode> View for SimpleCodec<T> {
    type V = CodecView;

    closed spec fn view(&self) -> CodecView {
        CodecView { pending: self.pending@, rest: self.rest@ }
    }
}

/// Reads the little-endian length at the front of `s`.
fn read_len(s: &[u8]) -> (r: usize)
    requires
        s@.len() >= 4,
    ensures
        r == le_u32(s@),
{
    let v: u32 = s[0] as u32 + (s[1] as u32) * 256 + (s[2] as u32) * 65536 + (s[3] as u32) * 16777216;
    v as usize
}

impl<T: Decode> SimpleCodec<T> {
    /// The buffered bytes and the state agree with `rest`, and the queue holds
    /// the decoding of each pending body.
    pub closed spec fn wf(&self) -> bool {
        &&& self.parsed_buf@.len() == self.pending@.len()
        &&& forall|i: int| 0 <= i < self.pending@.len() ==> decodes_to::<T>(#[trigger] self.pending@[i], self.parsed_buf@[i])
        &&& forall|i: int| 0 <= i < self.pending@.len() && (#[trigger] self.pending@[i]).len() == 0 ==> self.parsed_buf@[i] is Err
        &&& self.holds_rest()
        &&& split_frames(self.rest@) == (Seq::<Seq<u8>>::empty(), self.rest@)
        &&& self.rest@.len() <= isize::MAX
    }

    closed spec fn holds_rest(&self) -> bool {
        match self.state {
            State::OnHeader => buffered(self.bytes) == self.rest@,
            State::OnBody(len) => self.rest@.len() >= 4 && le_u32(self.rest@) == len && buffered(self.bytes) == self.rest@.skip(4),
        }
    }

    pub fn new() -> (r: Self)
        ensures
            r.wf(),
            r@ == (CodecView { pending: Seq::empty(), rest: Seq::empty() }),
            split_frames(r@.rest) == (Seq::<Seq<u8>>::empty(), r@.rest),
    {
        SimpleCodec {
            bytes: buf_new(),
            parsed_buf: std::collections::VecDeque::new(),
            state: State::OnHeader,
            pending: Ghost(Seq::empty()),
            rest: Ghost(Seq::empty()),
        }
    }

    /// The number of bytes of the incomplete frame held.
    pub fn buffered_len(&self) -> (r: usize)
        requires
            self.wf(),
        ensures
            r == self@.rest.len(),
    {
        match self.state {
            State::OnHeader => buf_len(&self.bytes),
            State::OnBody(_) => buf_len(&self.bytes) + HEADER_LEN,
        }
    }

    /// Pushes bytes, then decodes every frame they complete.
    pub fn extend(&mut self, data: &[u8])
        requires
            old(self).wf(),
            old(self)@.rest.len() + data@.len() <= isize::MAX,
        ensures
            final(self).wf(),
            final(self)@ == old(self)@.fed(data@),
            split_frames(final(self)@.rest) == (Seq::<Seq<u8>>::empty(), final(self)@.rest),
    {
        let ghost full = self.rest@ + data@;
        let ghost start = self.pending@;
        proof {
            lemma_split_rest_len(full);
        }
        buf_put(&mut self.bytes, data);
        proof {
            self.rest = Ghost(full);
            if self.state is OnBody {
                assert(full.skip(4) =~= old(self).rest@.skip(4) + data@);
            }
        }
        loop
            invariant
                self.parsed_buf@.len() == self.pending@.len(),
                forall|i: int| 0 <= i < self.pending@.len() ==> decodes_to::<T>(#[trigger] self.pending@[i], self.parsed_buf@[i]),
                forall|i: int| 0 <= i < self.pending@.len() && (#[trigger] self.pending@[i]).len() == 0 ==> self.parsed_buf@[i] is Err,
                self.holds_rest(),
                self.pending@ + split_frames(self.rest@).0 == start + split_frames(full).0,
                split_frames(self.rest@).1 == split_frames(full).1,
            ensures
                self.parsed_buf@.len() == self.pending@.len(),
                forall|i: int| 0 <= i < self.pending@.len() ==> decodes_to::<T>(#[trigger] self.pending@[i], self.parsed_buf@[i]),
                forall|i: int| 0 <= i < self.pending@.len() && (#[trigger] self.pending@[i]).len() == 0 ==> self.parsed_buf@[i] is Err,
                self.holds_rest(),
                self.pending@ == start + split_frames(full).0,
                self.rest@ == split_frames(full).1,
                split_frames(self.rest@) == (Seq::<Seq<u8>>::empty(), self.rest@),
            decreases 2 * self.rest@.len() + if self.state is OnHeader { 1int } else { 0int },
        {
            match self.state {
                State::OnHeader => {
                    if buf_len(&self.bytes) < HEADER_LEN {
                        assert(self.pending@ + Seq::<Seq<u8>>::empty() =~= self.pending@);
                        break;
                    }
                    let len = read_len(buf_bytes(&self.bytes));
                    buf_advance(&mut self.bytes, HEADER_LEN);
                    self.state = State::OnBody(len);
                },
                State::OnBody(len) => {
                    if buf_len(&self.bytes) < len {
                        assert(self.pending@ + Seq::<Seq<u8>>::empty() =~= self.pending@);
                        break;
                    }
                    let ghost r = self.rest@;
                    let ghost body = r.subrange(4, 4 + len as int);
                    let item = {
                        let b = buf_bytes(&self.bytes);
                        assert(b@.subrange(0, len as int) =~= body);
                        decode_frame::<T>(&b[0..len])
                    };
                    self.parsed_buf.push_back(item);
                    buf_advance(&mut self.bytes, len);
                    self.state = State::OnHeader;
                    proof {
                        let old_pending = self.pending@;
                        self.pending = Ghost(old_pending.push(body));
                        self.rest = Ghost(r.skip(4 + len as int));
                        assert(r.skip(4).skip(len as int) =~= r.skip(4 + len as int));
                        let (bs, _) = split_frames(r.skip(4 + len as int));
                        assert(old_pending + (seq![body] + bs) =~= old_pending.push(body) + bs);
                        assert forall|i: int| 0 <= i < self.pending@.len() implies decodes_to::<T>(#[trigger] self.pending@[i], self.parsed_buf@[i]) by {
                            if i < old_pending.len() {
                                assert(self.pending@[i] == old_pending[i]);
                            }
                        }
                        assert forall|i: int| 0 <= i < self.pending@.len() && (#[trigger] self.pending@[i]).len() == 0 implies self.parsed_buf@[i] is Err by {
                            if i < old_pending.len() {
                                assert(self.pending@[i] == old_pending[i]);
                            }
                        }
                    }
                },
            }
        }
    }

    /// Takes the oldest decoded frame, if any.
    pub fn drain(&mut self) -> (r: Option<Result<Type<T>, FrameError>>)
        requires
            old(self).wf(),
        ensures
            final(self).wf(),
            old(self)@.pending.len() == 0 ==> r is None && final(self)@ == old(self)@,
            old(self)@.pending.len() > 0 ==> (r matches Some(item) && decodes_to::<T>(old(self)@.pending[0], item)),
            old(self)@.pending.len() > 0 && old(self)@.pending[0].len() == 0 ==> (r matches Some(item) && item is Err),
            old(self)@.pending.len() > 0 ==> final(self)@ == (CodecView {
                pending: old(self)@.pending.drop_first(),
                rest: old(self)@.rest,
            }),
    {
        let r = self.parsed_buf.pop_front();
        proof {
            if self.pending@.len() > 0 {
                assert(decodes_to::<T>(self.pending@[0], old(self).parsed_buf@[0]));
                self.pending = Ghost(self.pending@.drop_first());
                assert forall|i: int| 0 <= i < self.pending@.len() implies decodes_to::<T>(#[trigger] self.pending@[i], self.parsed_buf@[i]) by {
                    assert(decodes_to::<T>(old(self).pending@[i + 1], old(self).parsed_buf@[i + 1]));
                }
                assert forall|i: int| 0 <= i < self.pending@.len() && (#[trigger] self.pending@[i]).len() == 0 implies self.parsed_buf@[i] is Err by {
                    assert(old(self).pending@[i + 1] == self.pending@[i]);
                }
            }
        }
        r
    }
}

} // verus!

verus! {

/// Cutting a stream into frames does not depend on where the stream was
/// split: the frames of `a + b` are those of `a`, then those of what `a` left
/// over followed by `b`.
pub proof fn lemma_split_concat(a: Seq<u8>, b: Seq<u8>)
    ensures
        split_frames(a + b) == ({
            let (b1, r1) = split_frames(a);
            let (b2, r2) = split_frames(r1 + b);
            (b1 + b2, r2)
        }),
    decreases a.len(),
{
    if a.len() < 4 || a.len() - 4 < le_u32(a) {
        assert(Seq::<Seq<u8>>::empty() + split_frames(a + b).0 =~= split_frames(a + b).0);
    } else {
        let n = le_u32(a) as int;
        let ab = a + b;
        assert(ab[0] == a[0] && ab[1] == a[1] && ab[2] == a[2] && ab[3] == a[3]);
        assert(ab.skip(4 + n) =~= a.skip(4 + n) + b);
        assert(ab.subrange(4, 4 + n) =~= a.subrange(4, 4 + n));
        lemma_split_concat(a.skip(4 + n), b);
        let (b1, r1) = split_frames(a.skip(4 + n));
        let (b2, r2) = split_frames(r1 + b);
        assert(seq![a.subrange(4, 4 + n)] + (b1 + b2) =~= (seq![a.subrange(4, 4 + n)] + b1) + b2);
    }
}

/// Pushing `a` and then `b` leaves a codec in the same state as pushing
/// `a + b` at once, so the frames drained do not depend on how the stream was
/// cut into pushes.
pub proof fn lemma_fed_split(m: CodecView, a: Seq<u8>, b: Seq<u8>)
    ensures
        m.fed(a).fed(b) == m.fed(a + b),
{
    lemma_split_concat(m.rest + a, b);
    assert(m.rest + a + b =~= m.rest + (a + b));
    let (b1, r1) = split_frames(m.rest + a);
    let (b2, r2) = split_frames(r1 + b);
    assert(m.pending + b1 + b2 =~= m.pending + (b1 + b2));
}

/// A frame of length zero, pushed on a frame boundary, yields one empty body
/// and leaves the codec waiting for the next header: what follows is cut as if
/// the empty frame had not been there.
pub proof fn lemma_zero_length_frame(m: CodecView, data: Seq<u8>)
    requires
        m.rest.len() == 0,
    ensures
        m.fed(seq![0u8, 0u8, 0u8, 0u8] + data) == (CodecView {
            pending: m.pending.push(Seq::empty()),
            rest: Seq::empty(),
        }).fed(data),
{
    let s = m.rest + (seq![0u8, 0u8, 0u8, 0u8] + data);
    assert(s =~= seq![0u8, 0u8, 0u8, 0u8] + data);
    assert(le_u32(s) == 0);
    assert(s.skip(4) =~= Seq::<u8>::empty() + data);
    assert(s.subrange(4, 4) =~= Seq::<u8>::empty());
    let (bs, r) = split_frames(Seq::<u8>::empty() + data);
    assert(m.pending + (seq![Seq::<u8>::empty()] + bs) =~= m.pending.push(Seq::empty()) + bs);
}

} // verus!

verus! {

/// The four little-endian bytes of `n`.
pub open spec fn le_bytes(n: nat) -> Seq<u8> {
    seq![(n % 256) as u8, ((n / 256) % 256) as u8, ((n / 65536) % 256) as u8, ((n / 16777216) % 256) as u8]
}

/// The bytes that carry `bodies` in frames, in order.
pub open spec fn framed(bodies: Seq<Seq<u8>>) -> Seq<u8>
    decreases bodies.len(),
{
    if bodies.len() == 0 {
        Seq::empty()
    } else {
        le_bytes(bodies[0].len()) + bodies[0] + framed(bodies.drop_first())
    }
}

proof fn lemma_le_round_trip(n: nat)
    requires
        n <= u32::MAX,
    ensures
        le_u32(le_bytes(n)) == n,
{
    let s = le_bytes(n);
    assert(s[0] == n % 256);
    assert(s[1] == (n / 256) % 256);
    assert(s[2] == (n / 65536) % 256);
    assert(s[3] == (n / 16777216) % 256);
    assert(n / 16777216 < 256) by (nonlinear_arith)
        requires
            n <= u32::MAX,
    ;
    assert(n == n % 256 + 256 * ((n / 256) % 256) + 65536 * ((n / 65536) % 256) + 16777216 * (n / 16777216)) by (nonlinear_arith)
        requires
            n <= u32::MAX,
    ;
}

/// The header for a body of `len` bytes; none where `len` does not fit in
/// four bytes.
pub fn length_prefix(len: usize) -> (r: Option<Vec<u8>>)
    ensures
        len > u32::MAX ==> r is None,
        len <= u32::MAX ==> (r matches Some(h) && h@ == le_bytes(len as nat)),
{
    if len > 0xffff_ffff {
        return None;
    }
    let v = len as u32;
    Some(vec![(v % 256) as u8, ((v / 256) % 256) as u8, ((v / 65536) % 256) as u8, ((v / 16777216) % 256) as u8])
}

/// Whatever follows a frame, the codec cuts that frame off first.
pub proof fn lemma_frame_then(body: Seq<u8>, tail: Seq<u8>)
    requires
        body.len() <= u32::MAX,
    ensures
        split_frames(le_bytes(body.len()) + body + tail) == ({
            let (bs, r) = split_frames(tail);
            (seq![body] + bs, r)
        }),
{
    let s = le_bytes(body.len()) + body + tail;
    lemma_le_round_trip(body.len());
    assert(s.subrange(0, 4) =~= le_bytes(body.len()));
    assert(s[0] == le_bytes(body.len())[0] && s[1] == le_bytes(body.len())[1]);
    assert(s[2] == le_bytes(body.len())[2] && s[3] == le_bytes(body.len())[3]);
    assert(s.skip(4 + body.len() as int) =~= tail);
    assert(s.subrange(4, 4 + body.len() as int) =~= body);
}

/// Frames written in order are read back in that order: cutting the bytes of
/// `framed(bodies)` gives back exactly `bodies`, with nothing left over.
pub proof fn lemma_framed_round_trip(bodies: Seq<Seq<u8>>)
    requires
        forall|i: int| 0 <= i < bodies.len() ==> (#[trigger] bodies[i]).len() <= u32::MAX,
    ensures
        split_frames(framed(bodies)) == (bodies, Seq::<u8>::empty()),
    decreases bodies.len(),
{
    if bodies.len() == 0 {
        assert(split_frames(Seq::<u8>::empty()) == (Seq::<Seq<u8>>::empty(), Seq::<u8>::empty()));
        assert(bodies =~= Seq::<Seq<u8>>::empty());
    } else {
        assert(bodies[0].len() <= u32::MAX);
        lemma_framed_round_trip(bodies.drop_first());
        lemma_frame_then(bodies[0], framed(bodies.drop_first()));
        assert(seq![bodies[0]] + bodies.drop_first() =~= bodies);
    }
}

} // verus!

verus! {

/// Draining between pushes does not change what comes out: after pushing
/// `a`, draining `k` frames and pushing `b`, the frames still pending are
/// those that pushing `a + b` at once leaves after its first `k`.
pub proof fn lemma_drain_between_pushes(m: CodecView, a: Seq<u8>, b: Seq<u8>, k: int)
    requires
        0 <= k <= m.fed(a).pending.len(),
    ensures
        (CodecView { pending: m.fed(a).pending.skip(k), rest: m.fed(a).rest }).fed(b) == (CodecView {
            pending: m.fed(a + b).pending.skip(k),
            rest: m.fed(a + b).rest,
        }),
{
    lemma_fed_split(m, a, b);
    let p = m.fed(a).pending;
    let (b2, r2) = split_frames(m.fed(a).rest + b);
    assert(p.skip(k) + b2 =~= (p + b2).skip(k));
}

} // verus!

verus! {

/// The bytes of `chunks`, one after the other.
pub open spec fn concat_chunks(chunks: Seq<Seq<u8>>) -> Seq<u8>
    decreases chunks.len(),
{
    if chunks.len() == 0 {
        Seq::empty()
    } else {
        chunks[0] + concat_chunks(chunks.drop_first())
    }
}

impl CodecView {
    /// The state after each of `chunks` has been pushed in turn.
    pub open spec fn fed_all(self, chunks: Seq<Seq<u8>>) -> CodecView
        decreases chunks.len(),
    {
        if chunks.len() == 0 {
            self
        } else {
            self.fed(chunks[0]).fed_all(chunks.drop_first())
        }
    }
}

/// However a stream is cut into pushes, the codec ends in the state that one
/// push of the whole stream gives, provided it starts with no complete frame
/// left uncut (as a well-formed codec always does).
pub proof fn lemma_fed_all(m: CodecView, chunks: Seq<Seq<u8>>)
    requires
        split_frames(m.rest) == (Seq::<Seq<u8>>::empty(), m.rest),
    ensures
        m.fed_all(chunks) == m.fed(concat_chunks(chunks)),
    decreases chunks.len(),
{
    if chunks.len() == 0 {
        assert(m.rest + Seq::<u8>::empty() =~= m.rest);
        assert(m.pending + Seq::<Seq<u8>>::empty() =~= m.pending);
    } else {
        let next = m.fed(chunks[0]);
        lemma_split_rest_fixed(m.rest + chunks[0]);
        lemma_fed_all(next, chunks.drop_first());
        lemma_fed_split(m, chunks[0], concat_chunks(chunks.drop_first()));
    }
}

/// What is left after cutting frames holds no complete frame.
proof fn lemma_split_rest_fixed(s: Seq<u8>)
    ensures
        split_frames(split_frames(s).1) == (Seq::<Seq<u8>>::empty(), split_frames(s).1),
    decreases s.len(),
{
    if !(s.len() < 4 || s.len() - 4 < le_u32(s)) {
        lemma_split_rest_fixed(s.skip(4 + le_u32(s) as int));
    }
}

} // verus!
