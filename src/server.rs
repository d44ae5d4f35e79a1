//! The server's side of a connection: the replies owed to each incoming
//! message, once the service has answered its calls.

use vstd::prelude::*;

use crate::codec::FrameError;
use crate::errors::{Error, ErrorKind};
use crate::json::Json;
use crate::message::{decode_error_message, describe_decode_error, Id, Request, Response, Version};
use crate::wire::{encode_response, is_response_text};

verus! {

/// A peer's network address.
#[derive(Clone, Copy, Debug, PartialEq, Eq)]
pub enum PeerAddr {
    V4([u8; 4], u16),
    V6([u8; 16], u16),
}

/// What every invocation on a connection knows of it: the caller's address.
#[derive(Clone, Copy, Debug, PartialEq, Eq)]
pub struct Context {
    pub caller_addr: PeerAddr,
}

/// The response to the call with id `id` whose outcome is `outcome`.
pub open spec fn response_for(id: Id, outcome: Result<Json, Error>) -> Response {
    match outcome {
        Ok(v) => Response { jsonrpc: Version::V2, result: Some(v), error: None, id: Some(id) },
        Err(e) => Response { jsonrpc: Version::V2, result: None, error: Some(e), id: Some(id) },
    }
}

/// The responses owed to a batch: one for each request with an id, in the
/// order of the requests; none for a notification.
pub open spec fn replies(ids: Seq<Option<Id>>, outcomes: Seq<Result<Json, Error>>) -> Seq<Response>
    decreases ids.len(),
{
    if ids.len() == 0 {
        Seq::empty()
    } else {
        let rest = replies(ids.drop_first(), outcomes.drop_first());
        match ids[0] {
            Some(id) => seq![response_for(id, outcomes[0])] + rest,
            None => rest,
        }
    }
}

/// The ids of a batch of requests, in order.
pub open spec fn ids_of(reqs: Seq<Request>) -> Seq<Option<Id>> {
    Seq::new(reqs.len(), |i: int| reqs[i].id)
}

/// The number of requests with an id.
pub open spec fn calls(ids: Seq<Option<Id>>) -> nat
    decreases ids.len(),
{
    if ids.len() == 0 {
        0
    } else {
        calls(ids.drop_first()) + if ids[0] is Some { 1nat } else { 0nat }
    }
}

/// `parts`, separated by commas.
pub open spec fn joined(parts: Seq<Seq<u8>>) -> Seq<u8>
    decreases parts.len(),
{
    if parts.len() == 0 {
        Seq::empty()
    } else if parts.len() == 1 {
        parts[0]
    } else {
        joined(parts.drop_last()) + seq![44u8] + parts.last()
    }
}

/// `b` is a JSON array holding the texts of `rs`, in order.
pub open spec fn is_batch_text(b: Seq<u8>, rs: Seq<Response>) -> bool {
    exists|texts: Seq<Seq<u8>>|
        texts.len() == rs.len() && (forall|i: int| 0 <= i < rs.len() ==> is_response_text(#[trigger] texts[i], rs[i]))
            && b == seq![91u8] + joined(texts) + seq![93u8]
}

/// The response to a call, from the service's outcome.
pub fn respond(id: Id, outcome: Result<Json, Error>) -> (r: Response)
    ensures
        r == response_for(id, outcome),
        r.wf(),
{
    match outcome {
        Ok(v) => Response::from_result(v, id),
        Err(e) => Response::from_error(e, id),
    }
}

/// The reply to a single request: the text of its response, or nothing for a
/// notification.
pub fn reply_single(id: Option<Id>, outcome: Result<Json, Error>) -> (r: Option<Vec<u8>>)
    ensures
        id is None ==> r is None,
        id matches Some(x) ==> (r matches Some(b) && is_response_text(b@, response_for(x, outcome))),
{
    match id {
        Some(id) => Some(encode_response(respond(id, outcome))),
        None => None,
    }
}

/// The reply to a batch: a JSON array of the responses owed, in order; `[]`
/// where every request is a notification.
pub fn reply_batch(ids: Vec<Option<Id>>, outcomes: Vec<Result<Json, Error>>) -> (r: Vec<u8>)
    requires
        ids.len() == outcomes.len(),
    ensures
        is_batch_text(r@, replies(ids@, outcomes@)),
{
    let ghost ids0 = ids@;
    let ghost outs0 = outcomes@;
    let mut ids = ids;
    let mut outcomes = outcomes;
    let mut out: Vec<u8> = Vec::new();
    out.push(91u8);
    let mut first = true;
    let ghost mut texts: Seq<Seq<u8>> = Seq::empty();
    let ghost mut done: Seq<Response> = Seq::empty();
    while ids.len() > 0
        invariant
            ids.len() == outcomes.len(),
            ids.len() <= ids0.len(),
            ids@ == ids0.skip(ids0.len() - ids.len()),
            outcomes@ == outs0.skip(ids0.len() - ids.len()),
            ids0.len() == outs0.len(),
            replies(ids0, outs0) == done + replies(ids@, outcomes@),
            texts.len() == done.len(),
            forall|i: int| 0 <= i < done.len() ==> is_response_text(#[trigger] texts[i], done[i]),
            out@ == seq![91u8] + joined(texts),
            first == (texts.len() == 0),
        decreases ids.len(),
    {
        let ghost before_ids = ids@;
        let ghost before_outs = outcomes@;
        let id = ids.remove(0);
        let outcome = outcomes.remove(0);
        assert(before_ids.drop_first() =~= ids@);
        assert(before_outs.drop_first() =~= outcomes@);
        assert(ids@ =~= ids0.skip(ids0.len() - ids.len()));
        assert(outcomes@ =~= outs0.skip(ids0.len() - ids.len()));
        match id {
            Some(id) => {
                let ghost resp = response_for(id, outcome);
                let mut text = encode_response(respond(id, outcome));
                let ghost t = text@;
                if !first {
                    out.push(44u8);
                }
                first = false;
                out.append(&mut text);
                proof {
                    let old_texts = texts;
                    texts = texts.push(t);
                    assert(texts.drop_last() =~= old_texts);
                    assert(out@ =~= seq![91u8] + joined(texts));
                    let old_done = done;
                    done = done.push(resp);
                    assert(replies(before_ids, before_outs) == seq![resp] + replies(ids@, outcomes@));
                    assert(old_done + (seq![resp] + replies(ids@, outcomes@)) =~= done + replies(ids@, outcomes@));
                    assert forall|i: int| 0 <= i < done.len() implies is_response_text(#[trigger] texts[i], done[i]) by {
                        if i < old_done.len() {
                            assert(texts[i] == old_texts[i]);
                        }
                    }
                }
            },
            None => {
                assert(replies(before_ids, before_outs) == replies(ids@, outcomes@));
            },
        }
    }
    out.push(93u8);
    assert(ids@ =~= Seq::<Option<Id>>::empty());
    assert(done + Seq::<Response>::empty() =~= done);
    let ghost rs = replies(ids0, outs0);
    assert(texts.len() == rs.len()
        && (forall|i: int| 0 <= i < rs.len() ==> is_response_text(#[trigger] texts[i], rs[i]))
        && out@ == seq![91u8] + joined(texts) + seq![93u8]);
    out
}

/// The response to a frame that could not be read as a message: a parse
/// error for text that is not JSON (with serde_json's message as its data),
/// an invalid request otherwise (with the reason as its data). Its id is
/// null: none could be read.
pub fn failure_response(e: FrameError) -> (r: Response)
    ensures
        r.wf(),
        r.id is None && r.result is None,
        r.error matches Some(err) && match e {
            FrameError::Syntax(m) => err.code == ErrorKind::ParseError.spec_code()
                && err.message@ == ErrorKind::ParseError.spec_message() && err.data == Some(Json::Str(m)),
            FrameError::Schema(d) => err.code == ErrorKind::InvalidRequest.spec_code()
                && err.message@ == ErrorKind::InvalidRequest.spec_message()
                && (err.data matches Some(Json::Str(m)) && m@ == decode_error_message(d)),
        },
{
    let err = match e {
        FrameError::Syntax(m) => Error::new(ErrorKind::ParseError, Some(Json::Str(m))),
        FrameError::Schema(d) => Error::new(ErrorKind::InvalidRequest, Some(Json::Str(describe_decode_error(d)))),
    };
    Response::from_error_without_id(err)
}

/// A batch yields exactly one response per request with an id, each
/// well-formed and carrying that request's id, in order.
pub proof fn lemma_replies_match_calls(ids: Seq<Option<Id>>, outcomes: Seq<Result<Json, Error>>)
    requires
        ids.len() == outcomes.len(),
    ensures
        replies(ids, outcomes).len() == calls(ids),
        forall|k: int| 0 <= k < replies(ids, outcomes).len() ==> (#[trigger] replies(ids, outcomes)[k]).wf()
            && replies(ids, outcomes)[k].id is Some,
    decreases ids.len(),
{
    if ids.len() > 0 {
        lemma_replies_match_calls(ids.drop_first(), outcomes.drop_first());
        let rest = replies(ids.drop_first(), outcomes.drop_first());
        if let Some(id) = ids[0] {
            assert forall|k: int| 0 <= k < replies(ids, outcomes).len() implies (#[trigger] replies(ids, outcomes)[k]).wf()
                && replies(ids, outcomes)[k].id is Some by {
                if k > 0 {
                    assert(replies(ids, outcomes)[k] == rest[k - 1]);
                }
            }
        }
    }
}

/// A batch of notifications only is answered with the empty array `[]`.
pub proof fn lemma_all_notifications(ids: Seq<Option<Id>>, outcomes: Seq<Result<Json, Error>>, b: Seq<u8>)
    requires
        ids.len() == outcomes.len(),
        forall|i: int| 0 <= i < ids.len() ==> (#[trigger] ids[i]) is None,
        is_batch_text(b, replies(ids, outcomes)),
    ensures
        b == seq![91u8, 93u8],
{
    lemma_replies_match_calls(ids, outcomes);
    lemma_no_calls(ids);
    let texts = choose|texts: Seq<Seq<u8>>|
        texts.len() == replies(ids, outcomes).len() && (forall|i: int| 0 <= i < replies(ids, outcomes).len() ==> is_response_text(#[trigger] texts[i], replies(ids, outcomes)[i]))
            && b == seq![91u8] + joined(texts) + seq![93u8];
    assert(b =~= seq![91u8, 93u8]);
}

proof fn lemma_no_calls(ids: Seq<Option<Id>>)
    requires
        forall|i: int| 0 <= i < ids.len() ==> (#[trigger] ids[i]) is None,
    ensures
        calls(ids) == 0,
    decreases ids.len(),
{
    if ids.len() > 0 {
        assert(ids[0] is None);
        assert forall|i: int| 0 <= i < ids.drop_first().len() implies (#[trigger] ids.drop_first()[i]) is None by {
            assert(ids.drop_first()[i] == ids[i + 1]);
        }
        lemma_no_calls(ids.drop_first());
    }
}

} // verus!
