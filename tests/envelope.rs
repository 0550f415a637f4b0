use alloy_primitives::{keccak256, Bytes};
use alloy_sol_types::SolValue;
use forgery::envelope::{check_words, decode_response, start_calldata, CallEnvelope, Header};
use forgery::gateway::{reply_for, CallOutcome};

fn header(k: &str, v: &str) -> Header {
    Header { key: k.to_string(), value: v.to_string() }
}

type Wire = (String, String, Vec<(String, String)>, Bytes);

fn decode_calldata(data: &[u8]) -> CallEnvelope {
    let selector = &keccak256("serve((string,string,(string,string)[],bytes))".as_bytes())[..4];
    assert_eq!(&data[..4], selector);
    let (method, uri, pairs, body) = Wire::abi_decode(&data[4..], true).unwrap();
    CallEnvelope {
        method,
        uri,
        headers: pairs.into_iter().map(|(key, value)| Header { key, value }).collect(),
        body: body.to_vec(),
    }
}

fn same(a: &CallEnvelope, b: &CallEnvelope) -> bool {
    a.method == b.method
        && a.uri == b.uri
        && a.body == b.body
        && a.headers.len() == b.headers.len()
        && a.headers.iter().zip(b.headers.iter()).all(|(x, y)| x.key == y.key && x.value == y.value)
}

#[test]
fn request_round_trip_keeps_order_and_duplicates() {
    let req = CallEnvelope {
        method: "POST".to_string(),
        uri: "/a/b?x=1".to_string(),
        headers: vec![header("x-b", "2"), header("x-a", "1"), header("x-b", "3"), header("x-a", "1")],
        body: vec![0, 255, 1, 2, 3, 0, 10],
    };
    let back = decode_calldata(&req.to_calldata());
    assert!(same(&req, &back));
}

#[test]
fn request_round_trip_empty() {
    let req = CallEnvelope {
        method: String::new(),
        uri: String::new(),
        headers: vec![],
        body: vec![],
    };
    let back = decode_calldata(&req.to_calldata());
    assert!(same(&req, &back));
}

#[test]
fn request_round_trip_long_body() {
    let body: Vec<u8> = (0..1000u32).map(|i| (i % 251) as u8).collect();
    let req = CallEnvelope {
        method: "PUT".to_string(),
        uri: "/upload".to_string(),
        headers: vec![header("content-type", "application/octet-stream")],
        body,
    };
    let back = decode_calldata(&req.to_calldata());
    assert!(same(&req, &back));
}

#[test]
fn start_calldata_is_selector_of_start() {
    let data = start_calldata();
    assert_eq!(data, vec![0xbe, 0x9a, 0x65, 0x55]);
}

#[test]
fn end_to_end_get_hello() {
    let req = CallEnvelope {
        method: "GET".to_string(),
        uri: "/hello".to_string(),
        headers: vec![],
        body: vec![],
    };
    let back = decode_calldata(&req.to_calldata());
    assert_eq!(back.method, "GET");
    assert_eq!(back.uri, "/hello");
    assert!(back.headers.is_empty());
    assert!(back.body.is_empty());

    let returned = (
        200u16,
        vec![("content-type".to_string(), "text/plain".to_string())],
        Bytes::from(b"hi".to_vec()),
    )
        .abi_encode();
    let reply = reply_for(&CallOutcome::Returned(returned)).0;
    assert_eq!(reply.status, 200);
    assert_eq!(reply.headers.len(), 1);
    assert_eq!(reply.headers[0].key, "content-type");
    assert_eq!(reply.headers[0].value, "text/plain");
    assert_eq!(reply.body, b"hi".to_vec());
}

#[test]
fn decode_response_rejects_garbage() {
    assert!(decode_response(&vec![1, 2, 3]).is_none());
}

#[test]
fn decode_response_keeps_duplicate_headers() {
    let data = (
        201u16,
        vec![
            ("set-cookie".to_string(), "a=1".to_string()),
            ("set-cookie".to_string(), "b=2".to_string()),
        ],
        Bytes::from(vec![9u8, 8, 7]),
    )
        .abi_encode();
    let r = decode_response(&data).unwrap();
    assert_eq!(r.status, 201);
    assert_eq!(r.headers.len(), 2);
    assert_eq!(r.headers[0].value, "a=1");
    assert_eq!(r.headers[1].value, "b=2");
    assert_eq!(r.body, vec![9, 8, 7]);
}

#[test]
fn check_words_flags_overflowing_words() {
    let mut w = vec![0u8; 32];
    w[31] = 7;
    assert!(check_words(&w));
    for b in &mut w[24..] {
        *b = 0xff;
    }
    assert!(!check_words(&w));
    assert!(check_words(&vec![0u8; 10]));
    let mut shifted = vec![1u8; 3];
    shifted.extend(vec![0u8; 24]);
    shifted.extend(vec![0xffu8; 8]);
    assert!(!check_words(&shifted));
    let valid = (200u16, vec![("a".to_string(), "b".to_string())], Bytes::from(vec![0xffu8; 40])).abi_encode();
    assert!(check_words(&valid));
}
