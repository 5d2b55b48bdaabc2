//! The protocol between a vehicle and the gateway: one request, carrying a
//! signed sample, and a one-word answer. A frame is the encoding of a
//! message followed by a line feed.

use vstd::prelude::*;
use vstd::slice::slice_subrange;
use vstd::string::StringExecFns;
use crate::principal::bytes_copy;
use crate::rules::StoreTelemetryResponse;
use crate::wire::{
    get_varint, lemma_varint_round_trip, put_varint, read_varint, varint, WIDE_32, WIDE_64,
};

verus! {

/// The byte that ends a frame.
pub const LINE_FEED: u8 = 10;

/// A signed sample on its way to the canister: the vehicle's identity, the
/// payload, and the signature over the payload.
#[derive(Debug)]
pub struct StoreTelemetry {
    pub principal: Vec<u8>,
    pub telemetry: Vec<u8>,
    pub signature: Vec<u8>,
}

/// What a vehicle asks of the gateway.
#[derive(Debug)]
pub enum Request {
    StoreTelemetry(StoreTelemetry),
}

/// What the gateway answers.
#[derive(Clone, Copy, Debug, PartialEq, Eq, Structural)]
pub enum Response {
    TurnOn,
    TurnOff,
}

/// What a request stands for.
pub struct RequestView {
    pub principal: Seq<u8>,
    pub telemetry: Seq<u8>,
    pub signature: Seq<u8>,
}

impl Request {
    /// What the request stands for.
    pub open spec fn model(&self) -> RequestView {
        match *self {
            Request::StoreTelemetry(body) => RequestView {
                principal: body.principal@,
                telemetry: body.telemetry@,
                signature: body.signature@,
            },
        }
    }
}

/// The bytes of a run of bytes: its length, then the run.
pub open spec fn blob(b: Seq<u8>) -> Seq<u8> {
    varint(b.len() as u128) + b
}

/// The run of bytes at the front of `b` and the bytes behind it.
pub open spec fn read_blob(b: Seq<u8>) -> Option<(Seq<u8>, Seq<u8>)> {
    match read_varint(b, WIDE_64) {
        Some((n, rest)) => if n <= rest.len() {
            Some((rest.take(n as int), rest.skip(n as int)))
        } else {
            None
        },
        None => None,
    }
}

/// The bytes of a request: the number of its variant, then its three runs.
pub open spec fn request_bytes(r: RequestView) -> Seq<u8> {
    varint(0) + blob(r.principal) + blob(r.telemetry) + blob(r.signature)
}

/// The request at the front of `b`, or `None` where `b` does not start
/// with one.
pub open spec fn request_of(b: Seq<u8>) -> Option<RequestView> {
    match read_varint(b, WIDE_32) {
        Some((variant, b1)) => if variant != 0 {
            None
        } else {
            match read_blob(b1) {
                Some((principal, b2)) => match read_blob(b2) {
                    Some((telemetry, b3)) => match read_blob(b3) {
                        Some((signature, b4)) => Some(
                            RequestView { principal, telemetry, signature },
                        ),
                        None => None,
                    },
                    None => None,
                },
                None => None,
            }
        },
        None => None,
    }
}

/// The bytes of an answer: the number of its variant.
pub open spec fn response_bytes(r: Response) -> Seq<u8> {
    match r {
        Response::TurnOn => varint(0),
        Response::TurnOff => varint(1),
    }
}

/// The answer at the front of `b`, or `None` where `b` does not start with
/// one.
pub open spec fn response_of(b: Seq<u8>) -> Option<Response> {
    match read_varint(b, WIDE_32) {
        Some((variant, rest)) => if variant == 0 {
            Some(Response::TurnOn)
        } else if variant == 1 {
            Some(Response::TurnOff)
        } else {
            None
        },
        None => None,
    }
}

/// A frame without the line feed that ends it, if it ends in one.
pub open spec fn unframed(frame: Seq<u8>) -> Seq<u8> {
    if frame.len() > 0 && frame.last() == LINE_FEED {
        frame.drop_last()
    } else {
        frame
    }
}

/// A run of bytes that was written is read back, whatever follows it.
pub proof fn lemma_blob_round_trip(b: Seq<u8>, rest: Seq<u8>)
    requires
        b.len() < 0x1_0000_0000_0000_0000,
    ensures
        read_blob(blob(b) + rest) == Some((b, rest)),
{
    lemma_varint_round_trip(b.len() as u128, WIDE_64, b + rest);
    assert(blob(b) + rest =~= varint(b.len() as u128) + (b + rest));
    assert((b + rest).take(b.len() as int) =~= b);
    assert((b + rest).skip(b.len() as int) =~= rest);
}

/// Every request is read back from its bytes, whatever follows them.
pub proof fn law_request_round_trip(r: RequestView, rest: Seq<u8>)
    requires
        r.principal.len() < 0x1_0000_0000_0000_0000,
        r.telemetry.len() < 0x1_0000_0000_0000_0000,
        r.signature.len() < 0x1_0000_0000_0000_0000,
    ensures
        request_of(request_bytes(r) + rest) == Some(r),
{
    let t3 = blob(r.signature) + rest;
    let t2 = blob(r.telemetry) + t3;
    let t1 = blob(r.principal) + t2;
    assert(request_bytes(r) + rest =~= varint(0) + t1);
    lemma_varint_round_trip(0, WIDE_32, t1);
    lemma_blob_round_trip(r.principal, t2);
    lemma_blob_round_trip(r.telemetry, t3);
    lemma_blob_round_trip(r.signature, rest);
}

/// Every answer is read back from its bytes, whatever follows them.
pub proof fn law_response_round_trip(r: Response, rest: Seq<u8>)
    ensures
        response_of(response_bytes(r) + rest) == Some(r),
{
    lemma_varint_round_trip(0, WIDE_32, rest);
    lemma_varint_round_trip(1, WIDE_32, rest);
}

/// Taking the line feed off a framed message gives the message.
pub proof fn law_unframe_inverts_frame(message: Seq<u8>)
    ensures
        unframed(message.push(LINE_FEED)) == message,
{
    assert(message.push(LINE_FEED).drop_last() =~= message);
}

/// Appends a run of bytes to `out`, behind its length.
pub fn put_blob(b: &[u8], out: &mut Vec<u8>)
    ensures
        final(out)@ == old(out)@ + blob(b@),
{
    put_varint(b.len() as u128, out);
    let ghost start = out@;
    let mut i: usize = 0;
    while i < b.len()
        invariant
            i <= b@.len(),
            out@ == start + b@.take(i as int),
        decreases b@.len() - i,
    {
        out.push(b[i]);
        assert(start + b@.take(i + 1) =~= (start + b@.take(i as int)).push(b@[i as int]));
        i += 1;
    }
    assert(b@.take(b@.len() as int) =~= b@);
    assert(out@ =~= old(out)@ + blob(b@));
}

/// Reads a run of bytes at `pos`; gives it with the position behind it.
pub fn get_blob(data: &[u8], pos: usize) -> (r: Option<(Vec<u8>, usize)>)
    requires
        pos <= data@.len(),
    ensures
        match read_blob(data@.skip(pos as int)) {
            Some((b, rest)) => match r {
                Some((value, end)) => value@ == b && pos < end <= data@.len() && data@.skip(
                    end as int,
                ) == rest,
                None => false,
            },
            None => r is None,
        },
{
    let (n, start) = match get_varint(data, pos, WIDE_64) {
        Some(pair) => pair,
        None => { return None; },
    };
    let left = data.len() - start;
    if n > left as u128 {
        return None;
    }
    let end = start + n as usize;
    let value = bytes_copy(slice_subrange(data, start, end));
    proof {
        let rest = data@.skip(start as int);
        assert(rest.take(n as int) =~= data@.subrange(start as int, end as int));
        assert(rest.skip(n as int) =~= data@.skip(end as int));
    }
    Some((value, end))
}

/// The bytes of a request.
pub fn encode_request(request: &Request) -> (out: Vec<u8>)
    ensures
        out@ == request_bytes(request.model()),
{
    let mut out: Vec<u8> = Vec::new();
    match request {
        Request::StoreTelemetry(body) => {
            put_varint(0, &mut out);
            put_blob(body.principal.as_slice(), &mut out);
            put_blob(body.telemetry.as_slice(), &mut out);
            put_blob(body.signature.as_slice(), &mut out);
        },
    }
    assert(out@ =~= request_bytes(request.model()));
    out
}

/// The request that the bytes start with, if they start with one.
pub fn decode_request(data: &[u8]) -> (r: Option<Request>)
    ensures
        match request_of(data@) {
            Some(m) => r is Some && r->0.model() == m,
            None => r is None,
        },
{
    assert(data@.skip(0) =~= data@);
    let (variant, at1) = match get_varint(data, 0, WIDE_32) {
        Some(pair) => pair,
        None => { return None; },
    };
    if variant != 0 {
        return None;
    }
    let (principal, at2) = match get_blob(data, at1) {
        Some(pair) => pair,
        None => { return None; },
    };
    let (telemetry, at3) = match get_blob(data, at2) {
        Some(pair) => pair,
        None => { return None; },
    };
    let (signature, at4) = match get_blob(data, at3) {
        Some(pair) => pair,
        None => { return None; },
    };
    Some(Request::StoreTelemetry(StoreTelemetry { principal, telemetry, signature }))
}

/// The bytes of an answer.
pub fn encode_response(response: Response) -> (out: Vec<u8>)
    ensures
        out@ == response_bytes(response),
{
    let mut out: Vec<u8> = Vec::new();
    match response {
        Response::TurnOn => put_varint(0, &mut out),
        Response::TurnOff => put_varint(1, &mut out),
    }
    assert(out@ =~= response_bytes(response));
    out
}

/// The answer that the bytes start with, if they start with one.
pub fn decode_response(data: &[u8]) -> (r: Option<Response>)
    ensures
        r == response_of(data@),
{
    assert(data@.skip(0) =~= data@);
    match get_varint(data, 0, WIDE_32) {
        Some((variant, end)) => {
            if variant == 0 {
                Some(Response::TurnOn)
            } else if variant == 1 {
                Some(Response::TurnOff)
            } else {
                None
            }
        },
        None => None,
    }
}

/// The frame that a vehicle sends for a request: its bytes and a line feed.
pub fn frame_request(request: &Request) -> (out: Vec<u8>)
    ensures
        out@ == request_bytes(request.model()).push(LINE_FEED),
{
    let mut out = encode_request(request);
    out.push(LINE_FEED);
    out
}

/// The frame that the gateway sends for an answer: its bytes, and a line
/// feed behind them unless they end in one.
pub fn frame_response(response: Response) -> (out: Vec<u8>)
    ensures
        out@ == response_bytes(response).push(LINE_FEED),
{
    let mut out = encode_response(response);
    let n = out.len();
    if n == 0 || out[n - 1] != LINE_FEED {
        out.push(LINE_FEED);
    }
    out
}

/// What was read from a connection, without the line feed at its end.
pub fn unframe(frame: &[u8]) -> (r: &[u8])
    ensures
        r@ == unframed(frame@),
{
    let n = frame.len();
    if n > 0 && frame[n - 1] == LINE_FEED {
        let r = slice_subrange(frame, 0, n - 1);
        assert(r@ =~= frame@.drop_last());
        r
    } else {
        frame
    }
}

/// The text of an error, for a caller that wants text.
pub fn map_err<E: core::fmt::Display>(e: E) -> (text: String)
    ensures
        vstd::string::to_string_from_display_ensures::<E>(&e, text),
{
    e.to_string()
}

/// The request that a frame holds, or why it holds none.
pub fn read_request(frame: &[u8]) -> (r: Result<Request, String>)
    ensures
        match request_of(unframed(frame@)) {
            Some(m) => r is Ok && r->Ok_0.model() == m,
            None => r is Err && r->Err_0@ == "malformed request"@,
        },
{
    match decode_request(unframe(frame)) {
        Some(request) => Ok(request),
        None => {
            Err(String::from_str("malformed request"))
        },
    }
}

/// The answer that a vehicle read from the gateway, or why it is none.
pub fn read_response(data: &[u8]) -> (r: Result<Response, String>)
    ensures
        match response_of(data@) {
            Some(answer) => r == Ok::<Response, String>(answer),
            None => r is Err && r->Err_0@ == "malformed response"@,
        },
{
    match decode_response(data) {
        Some(response) => Ok(response),
        None => {
            Err(String::from_str("malformed response"))
        },
    }
}

/// The answer that the gateway gives a vehicle for what the canister said.
pub fn reply_for(answer: StoreTelemetryResponse) -> (r: Response)
    ensures
        r == match answer {
            StoreTelemetryResponse::On => Response::TurnOn,
            StoreTelemetryResponse::Off => Response::TurnOff,
        },
{
    match answer {
        StoreTelemetryResponse::On => Response::TurnOn,
        StoreTelemetryResponse::Off => Response::TurnOff,
    }
}

} // verus!
