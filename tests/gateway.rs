use alloy_primitives::Bytes;
use alloy_sol_types::SolValue;
use forgery::gateway::{commits, reply_for, request_failed_reply, CallOutcome};

fn encoded(status: u16, body: &[u8]) -> Vec<u8> {
    (status, Vec::<(String, String)>::new(), Bytes::from(body.to_vec())).abi_encode()
}

#[test]
fn invalid_status_becomes_500() {
    let r = reply_for(&CallOutcome::Returned(encoded(1000, b"x"))).0;
    assert_eq!(r.status, 500);
    assert_eq!(r.body, b"x".to_vec());
    let r = reply_for(&CallOutcome::Returned(encoded(99, b""))).0;
    assert_eq!(r.status, 500);
}

#[test]
fn status_bounds_pass_through() {
    assert_eq!(reply_for(&CallOutcome::Returned(encoded(100, b""))).0.status, 100);
    assert_eq!(reply_for(&CallOutcome::Returned(encoded(999, b""))).0.status, 999);
    assert_eq!(reply_for(&CallOutcome::Returned(encoded(404, b"no"))).0.status, 404);
}

#[test]
fn revert_reply_carries_reason() {
    let r = reply_for(&CallOutcome::Reverted("out of stock".to_string())).0;
    assert_eq!(r.status, 500);
    assert!(r.headers.is_empty());
    assert_eq!(r.body, b"Request reverted: out of stock".to_vec());
}

#[test]
fn engine_error_reply() {
    let r = reply_for(&CallOutcome::EngineError).0;
    assert_eq!(r.status, 500);
    assert_eq!(r.body, b"Forgery encountered an error".to_vec());
}

#[test]
fn undecodable_response_reply() {
    let r = reply_for(&CallOutcome::Returned(vec![0xde, 0xad])).0;
    assert_eq!(r.status, 500);
    assert_eq!(r.body, b"Response parsing failed".to_vec());
}

#[test]
fn request_failure_reply() {
    let r = request_failed_reply();
    assert_eq!(r.status, 500);
    assert_eq!(r.body, b"Request parsing failed".to_vec());
}

#[test]
fn only_returned_calls_commit() {
    assert!(commits(&CallOutcome::Returned(vec![])));
    assert!(!commits(&CallOutcome::Reverted("r".to_string())));
    assert!(!commits(&CallOutcome::EngineError));
}

#[test]
fn status_replacement_is_reported() {
    assert!(reply_for(&CallOutcome::Returned(encoded(1000, b""))).1);
    assert!(!reply_for(&CallOutcome::Returned(encoded(200, b""))).1);
    assert!(!reply_for(&CallOutcome::EngineError).1);
}

#[test]
fn huge_length_word_is_a_parse_failure() {
    // A valid head for (uint16, (string,string)[], bytes), then a bytes
    // length of 2^64 - 1.
    let mut data = encoded(200, b"");
    let len_word = data.len() - 32;
    for b in &mut data[len_word + 24..] {
        *b = 0xff;
    }
    let (r, replaced) = reply_for(&CallOutcome::Returned(data));
    assert_eq!(r.status, 500);
    assert_eq!(r.body, b"Response parsing failed".to_vec());
    assert!(!replaced);
}
