use vstd::prelude::*;
use crate::envelope::{decode_response, response_decoding, words_bounded, ResponseEnvelope};
use vstd::string::StringSliceAdditionalSpecFns;
use vstd::utf8::encode_utf8;

verus! {

/// How the program call of one request ended.
pub enum CallOutcome {
    /// The call returned this data without reverting.
    Returned(Vec<u8>),
    /// The call reverted, for this reason.
    Reverted(String),
    /// The engine could not carry out the call.
    EngineError,
}

/// Status of every failed request.
pub const INTERNAL_ERROR: u16 = 500;

/// Body when the inbound request could not be read.
pub const REQUEST_FAILED: &'static str = "Request parsing failed";

/// Body when the program returned data that is not a response.
pub const RESPONSE_FAILED: &'static str = "Response parsing failed";

/// Body prefix when the program call reverted; the reason follows.
pub const REVERTED_PREFIX: &'static str = "Request reverted: ";

/// Body when the engine failed.
pub const ENGINE_FAILED: &'static str = "Forgery encountered an error";

/// Whether `s` is a status code that an HTTP response can carry.
pub open spec fn valid_status(s: u16) -> bool {
    100 <= s <= 999
}

/// Relies on http::StatusCode::from_u16, which accepts 100 to 999.
#[verifier::external_body]
fn status_is_valid(s: u16) -> (r: bool)
    ensures
        r == valid_status(s),
{
    hyper::StatusCode::from_u16(s).is_ok()
}

fn push_text(out: &mut Vec<u8>, s: &str)
    ensures
        final(out)@ == old(out)@ + s.spec_bytes(),
{
    let b = s.as_bytes();
    let ghost start = out@;
    let mut i: usize = 0;
    while i < b.len()
        invariant
            i <= b@.len(),
            b@ == s.spec_bytes(),
            out@ == start + b@.subrange(0, i as int),
        decreases b@.len() - i,
    {
        out.push(b[i]);
        assert(out@ =~= start + b@.subrange(0, i + 1));
        i = i + 1;
    }
    assert(b@.subrange(0, b@.len() as int) =~= b@);
}

/// A 500 reply with no headers and this body.
pub open spec fn failure(body: Seq<u8>) -> (u16, Seq<(Seq<char>, Seq<char>)>, Seq<u8>) {
    (INTERNAL_ERROR, Seq::empty(), body)
}

fn failure_reply(body: Vec<u8>) -> (r: ResponseEnvelope)
    ensures
        crate::envelope::response_view(r) == failure(body@),
{
    let r = ResponseEnvelope { status: INTERNAL_ERROR, headers: Vec::new(), body };
    assert(crate::envelope::headers_view(r.headers@) =~= Seq::empty());
    r
}

/// The reply when the inbound request could not be read.
pub fn request_failed_reply() -> (r: ResponseEnvelope)
    ensures
        crate::envelope::response_view(r) == failure(REQUEST_FAILED.spec_bytes()),
{
    let mut body: Vec<u8> = Vec::new();
    push_text(&mut body, REQUEST_FAILED);
    assert(body@ =~= REQUEST_FAILED.spec_bytes());
    failure_reply(body)
}

/// The reply that a call outcome gives.
pub open spec fn reply_view(o: CallOutcome) -> (u16, Seq<(Seq<char>, Seq<char>)>, Seq<u8>) {
    match o {
        CallOutcome::Returned(data) => match if words_bounded(data@) {
            response_decoding(data@)
        } else {
            None
        } {
            Some(v) => (if valid_status(v.0) {
                v.0
            } else {
                INTERNAL_ERROR
            }, v.1, v.2),
            None => failure(RESPONSE_FAILED.spec_bytes()),
        },
        CallOutcome::Reverted(reason) => failure(REVERTED_PREFIX.spec_bytes() + encode_utf8(reason@)),
        CallOutcome::EngineError => failure(ENGINE_FAILED.spec_bytes()),
    }
}

/// The program returned a response whose status had to be replaced.
pub open spec fn status_replaced(o: CallOutcome) -> bool {
    match o {
        CallOutcome::Returned(data) => words_bounded(data@) && match response_decoding(data@) {
            Some(v) => !valid_status(v.0),
            None => false,
        },
        _ => false,
    }
}

/// Turns the outcome of the program call into the HTTP reply: the decoded
/// response, with an invalid status replaced by 500; or a 500 that says
/// what failed. The flag tells whether a status was replaced, so that the
/// caller can warn of it.
pub fn reply_for(o: &CallOutcome) -> (r: (ResponseEnvelope, bool))
    ensures
        crate::envelope::response_view(r.0) == reply_view(*o),
        r.1 == status_replaced(*o),
{
    match o {
        CallOutcome::Returned(data) => match decode_response(data) {
            Some(v) => {
                let valid = status_is_valid(v.status);
                let status = if valid {
                    v.status
                } else {
                    INTERNAL_ERROR
                };
                (ResponseEnvelope { status, headers: v.headers, body: v.body }, !valid)
            },
            None => {
                let mut body: Vec<u8> = Vec::new();
                push_text(&mut body, RESPONSE_FAILED);
                assert(body@ =~= RESPONSE_FAILED.spec_bytes());
                (failure_reply(body), false)
            },
        },
        CallOutcome::Reverted(reason) => {
            let mut body: Vec<u8> = Vec::new();
            push_text(&mut body, REVERTED_PREFIX);
            push_text(&mut body, reason.as_str());
            assert(body@ =~= REVERTED_PREFIX.spec_bytes() + encode_utf8(reason@));
            (failure_reply(body), false)
        },
        CallOutcome::EngineError => {
            let mut body: Vec<u8> = Vec::new();
            push_text(&mut body, ENGINE_FAILED);
            assert(body@ =~= ENGINE_FAILED.spec_bytes());
            (failure_reply(body), false)
        },
    }
}

/// Whether the state changes of the call are kept: only a call that did not
/// revert changes the session.
pub fn commits(o: &CallOutcome) -> (r: bool)
    ensures
        r == (o is Returned),
{
    match o {
        CallOutcome::Returned(_) => true,
        _ => false,
    }
}

} // verus!
