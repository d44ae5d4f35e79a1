//! The client's side: turning a call or a notification into bytes to send,
//! with the waiter for a call registered under a fresh id first.

use vstd::prelude::*;

use crate::message::{encodes_request, Id, Request};
use crate::transport::{has_id, Waiters};
use crate::wire::{encode_request, is_request_text, json_text};

verus! {

/// Relies on `RngCore::try_fill_bytes` of `rand::rngs::OsRng`: four bytes
/// from the operating system's generator, or none where it reports a failure
/// (it does not panic). Nothing is promised of the value drawn.
#[verifier::external_body]
fn draw_id() -> (r: Option<u32>) {
    let mut bytes = [0u8; 4];
    match rand::RngCore::try_fill_bytes(&mut rand::rngs::OsRng, &mut bytes) {
        Ok(()) => Some(u32::from_le_bytes(bytes)),
        Err(_) => None,
    }
}

/// Why a request was not sent.
#[derive(Debug, PartialEq)]
pub enum CallError<W> {
    /// Its text is longer than a frame can carry; the waiter is handed back.
    TooLarge(W),
    /// A waiter is already registered under the id; this one is handed back
    /// with the request, to be tried again under another id.
    IdTaken(W, Request),
    /// No random id could be drawn; the waiter and the request are handed
    /// back.
    NoId(W, Request),
}

/// A request whose text is longer than a frame can carry.
#[derive(Clone, Copy, Debug, PartialEq, Eq, Structural)]
pub struct PayloadTooLarge;

/// `req` with its id set to the number `n`.
pub open spec fn with_id(req: Request, n: u32) -> Request {
    Request { jsonrpc: req.jsonrpc, method: req.method, params: req.params, id: Some(Id::Num(n)) }
}

/// The text of `req`, checked to fit in one frame.
pub fn create_data(request: Request) -> (r: Result<Vec<u8>, PayloadTooLarge>)
    ensures
        r matches Ok(b) ==> is_request_text(b@, request) && b@.len() <= u32::MAX,
        r is Err ==> exists|j| encodes_request(j, request) && json_text(j).len() > u32::MAX,
{
    let data = encode_request(request);
    if data.len() > 0xffff_ffff {
        Err(PayloadTooLarge)
    } else {
        Ok(data)
    }
}

/// Prepares a call under the id `n`: registers `waiter` for the response and
/// returns the text to send. An id already waited on is refused; so is a
/// request too large for a frame, in which case nothing is registered.
pub fn prepare_call<W>(waiters: &mut Waiters<W>, request: Request, n: u32, waiter: W) -> (r: Result<Vec<u8>, CallError<W>>)
    requires
        old(waiters).wf(),
    ensures
        final(waiters).wf(),
        has_id(old(waiters)@, n) ==> r == Err::<Vec<u8>, CallError<W>>(CallError::IdTaken(waiter, request))
            && final(waiters)@ == old(waiters)@,
        !has_id(old(waiters)@, n) ==> match r {
            Ok(b) => is_request_text(b@, with_id(request, n)) && b@.len() <= u32::MAX
                && final(waiters)@ == old(waiters)@.push((n, waiter)),
            Err(CallError::TooLarge(w)) => w == waiter && final(waiters)@ == old(waiters)@
                && exists|j| encodes_request(j, with_id(request, n)) && json_text(j).len() > u32::MAX,
            Err(CallError::IdTaken(_, _)) => false,
            Err(CallError::NoId(_, _)) => false,
        },
{
    if waiters.contains(n) {
        return Err(CallError::IdTaken(waiter, request));
    }
    let mut request = request;
    request.id = Some(Id::Num(n));
    match create_data(request) {
        Ok(data) => {
            let added = waiters.add_receiver(n, waiter);
            proof {
                assert(added is Ok);
            }
            Ok(data)
        },
        Err(PayloadTooLarge) => Err(CallError::TooLarge(waiter)),
    }
}

/// Prepares a call under a freshly drawn random id. Where an id is drawn, the
/// outcome is that of `prepare_call` under it (on `IdTaken` the caller may
/// simply try again); where none can be drawn, nothing is registered.
pub fn start_call<W>(waiters: &mut Waiters<W>, request: Request, waiter: W) -> (r: (Option<u32>, Result<Vec<u8>, CallError<W>>))
    requires
        old(waiters).wf(),
    ensures
        final(waiters).wf(),
        r.0 is None ==> r.1 == Err::<Vec<u8>, CallError<W>>(CallError::NoId(waiter, request))
            && final(waiters)@ == old(waiters)@,
        r.0 matches Some(n) ==> (has_id(old(waiters)@, n) ==> r.1 == Err::<Vec<u8>, CallError<W>>(
            CallError::IdTaken(waiter, request),
        ) && final(waiters)@ == old(waiters)@),
        r.0 matches Some(n) ==> (!has_id(old(waiters)@, n) ==> match r.1 {
            Ok(b) => is_request_text(b@, with_id(request, n)) && b@.len() <= u32::MAX
                && final(waiters)@ == old(waiters)@.push((n, waiter)),
            Err(CallError::TooLarge(w)) => w == waiter && final(waiters)@ == old(waiters)@
                && exists|j| encodes_request(j, with_id(request, n)) && json_text(j).len() > u32::MAX,
            Err(CallError::IdTaken(_, _)) => false,
            Err(CallError::NoId(_, _)) => false,
        }),
{
    match draw_id() {
        Some(n) => (Some(n), prepare_call(waiters, request, n, waiter)),
        None => (None, Err(CallError::NoId(waiter, request))),
    }
}

} // verus!
