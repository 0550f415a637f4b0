use vstd::prelude::*;
use alloy_sol_types::SolValue;

verus! {

/// One header line: a key and its value, as the program sees them.
pub struct Header {
    pub key: String,
    pub value: String,
}

/// The canonical request handed to the program: header pairs keep their
/// order and may repeat.
pub struct CallEnvelope {
    pub method: String,
    pub uri: String,
    pub headers: Vec<Header>,
    pub body: Vec<u8>,
}

/// The canonical response returned by the program.
pub struct ResponseEnvelope {
    pub status: u16,
    pub headers: Vec<Header>,
    pub body: Vec<u8>,
}

/// Header pairs as sequences of characters.
pub open spec fn headers_view(h: Seq<Header>) -> Seq<(Seq<char>, Seq<char>)> {
    h.map_values(|x: Header| (x.key@, x.value@))
}

/// The mathematical value of a response: status, header pairs, body.
pub open spec fn response_view(r: ResponseEnvelope) -> (u16, Seq<(Seq<char>, Seq<char>)>, Seq<u8>) {
    (r.status, headers_view(r.headers@), r.body@)
}

/// Signature of the program's serving entry point.
pub const SERVE_SIGNATURE: &'static str = "serve((string,string,(string,string)[],bytes))";

/// Signature of the program's initializer entry point.
pub const START_SIGNATURE: &'static str = "start()";

/// The four-byte function selector of a signature.
pub uninterp spec fn selector_of(sig: Seq<char>) -> Seq<u8>;

/// The ABI encoding of a request tuple (string, string, (string, string)[], bytes).
pub uninterp spec fn request_encoding(
    method: Seq<char>,
    uri: Seq<char>,
    headers: Seq<(Seq<char>, Seq<char>)>,
    body: Seq<u8>,
) -> Seq<u8>;

/// What ABI decoding of a response tuple (uint16, (string, string)[], bytes) yields.
pub uninterp spec fn response_decoding(data: Seq<u8>) -> Option<
    (u16, Seq<(Seq<char>, Seq<char>)>, Seq<u8>),
>;

/// Relies on alloy_primitives::keccak256: the selector is the first four
/// bytes of the hash of the signature.
#[verifier::external_body]
fn selector(sig: &str) -> (r: Vec<u8>)
    ensures
        r@ == selector_of(sig@),
        r@.len() == 4,
{
    alloy_primitives::keccak256(sig.as_bytes())[..4].to_vec()
}

/// Relies on alloy_sol_types::SolValue::abi_encode for the tuple
/// (String, String, Vec<(String, String)>, Bytes).
#[verifier::external_body]
fn abi_encode_request(method: &String, uri: &String, headers: &Vec<Header>, body: &Vec<u8>) -> (r:
    Vec<u8>)
    ensures
        r@ == request_encoding(method@, uri@, headers_view(headers@), body@),
{
    let pairs: Vec<(String, String)> = headers.iter().map(|h| (h.key.clone(), h.value.clone())).collect();
    (method.clone(), uri.clone(), pairs, alloy_primitives::Bytes::from(body.clone())).abi_encode()
}

/// 256 to the power `k`.
pub open spec fn p256(k: nat) -> nat
    decreases k,
{
    if k == 0 {
        1
    } else {
        256 * p256((k - 1) as nat)
    }
}

/// The big-endian value of the `k` bytes of `data` from `i` on.
pub open spec fn be_value(data: Seq<u8>, i: int, k: nat) -> nat
    decreases k,
{
    if k == 0 {
        0
    } else {
        be_value(data, i, (k - 1) as nat) * 256 + data[i + k - 1] as nat
    }
}

/// The `n` bytes of `data` from `i` on are zero.
pub open spec fn zero_run(data: Seq<u8>, i: int, n: int) -> bool {
    forall|j: int| i <= j < i + n ==> data[j] == 0
}

/// No offset or length that the decoder can read from `data` (a 32-byte
/// window whose first 24 bytes are zero, read as the value of its last 8)
/// overflows when added to a position in `data` and rounded up to a word.
pub open spec fn words_bounded(data: Seq<u8>) -> bool {
    &&& data.len() + 64 <= u64::MAX
    &&& forall|i: int|
        0 <= i && i + 32 <= data.len() && #[trigger] zero_run(data, i, 24) ==> be_value(
            data,
            i + 24,
            8,
        ) + data.len() + 32 <= u64::MAX
}

proof fn lemma_p256_small(k: nat)
    requires
        k <= 7,
    ensures
        p256(k) <= 0x100000000000000,
    decreases 7 - k,
{
    if k < 7 {
        lemma_p256_small(k + 1);
        assert(p256(k + 1) == 256 * p256(k));
    } else {
        assert(p256(0) == 1);
        assert(p256(1) == 0x100);
        assert(p256(2) == 0x10000);
        assert(p256(3) == 0x1000000);
        assert(p256(4) == 0x100000000);
        assert(p256(5) == 0x10000000000);
        assert(p256(6) == 0x1000000000000);
        assert(p256(7) == 0x100000000000000);
    }
}

fn word_value(data: &Vec<u8>, i: usize) -> (r: u64)
    requires
        i + 32 <= data@.len(),
    ensures
        r == be_value(data@, i + 24, 8),
{
    let n = data.len();
    let mut v: u64 = 0;
    let mut k: usize = 0;
    while k < 8
        invariant
            k <= 8,
            n == data@.len(),
            i + 32 <= data@.len(),
            v == be_value(data@, i + 24, k as nat),
            v < p256(k as nat),
        decreases 8 - k,
    {
        let b = data[i + 24 + k];
        proof {
            lemma_p256_small(k as nat);
            let pk = p256(k as nat);
            assert(v * 256 + b <= 0xffffffffffffffff && v * 256 + b < 256 * pk) by (nonlinear_arith)
                requires
                    v < pk,
                    pk <= 0x100000000000000,
                    b <= 255,
            ;
        }
        v = v * 256 + b as u64;
        k = k + 1;
    }
    v
}

/// Whether the data passes `words_bounded`.
pub fn check_words(data: &Vec<u8>) -> (r: bool)
    ensures
        r == words_bounded(data@),
{
    let n = data.len();
    if n as u64 > u64::MAX - 64 {
        return false;
    }
    if n < 32 {
        return true;
    }
    let limit: u64 = u64::MAX - 32 - n as u64;
    let mut i: usize = 0;
    while i <= n - 32
        invariant
            n == data@.len(),
            n >= 32,
            n + 64 <= u64::MAX,
            limit == u64::MAX - 32 - n,
            i <= n - 31,
            forall|i0: int|
                0 <= i0 < i && #[trigger] zero_run(data@, i0, 24) ==> be_value(data@, i0 + 24, 8)
                    + data@.len() + 32 <= u64::MAX,
        decreases n - i,
    {
        let mut zero_head = true;
        let mut j: usize = i;
        while j < i + 24
            invariant
                i + 32 <= n,
                n == data@.len(),
                i <= j <= i + 24,
                zero_head == (forall|j0: int| i <= j0 < j ==> data@[j0] == 0),
            decreases i + 24 - j,
        {
            if data[j] != 0 {
                zero_head = false;
            }
            j = j + 1;
        }
        if zero_head {
            assert(zero_run(data@, i as int, 24));
            if word_value(data, i) > limit {
                return false;
            }
        }
        i = i + 1;
    }
    true
}

/// Relies on alloy_sol_types::SolValue::abi_decode, with validation, for the
/// tuple (u16, Vec<(String, String)>, Bytes). The decoder adds offsets and
/// lengths read from the data to positions in it without a check, so those
/// sums must not overflow.
#[verifier::external_body]
fn abi_decode_response(data: &Vec<u8>) -> (r: Option<ResponseEnvelope>)
    requires
        words_bounded(data@),
    ensures
        r.is_some() == response_decoding(data@).is_some(),
        r.is_some() ==> response_view(r.unwrap()) == response_decoding(data@).unwrap(),
{
    match <(u16, Vec<(String, String)>, alloy_primitives::Bytes)>::abi_decode(data, true) {
        Ok((status, pairs, body)) => Some(ResponseEnvelope {
            status,
            headers: pairs.into_iter().map(|(key, value)| Header { key, value }).collect(),
            body: body.to_vec(),
        }),
        Err(_) => None,
    }
}

/// The call data of `serve(request)`: the selector followed by the encoded request.
pub open spec fn serve_calldata(req: CallEnvelope) -> Seq<u8> {
    selector_of(SERVE_SIGNATURE@) + request_encoding(
        req.method@,
        req.uri@,
        headers_view(req.headers@),
        req.body@,
    )
}

impl CallEnvelope {
    /// Encodes the request as call data for the program's serving entry point.
    pub fn to_calldata(&self) -> (r: Vec<u8>)
        ensures
            r@ == serve_calldata(*self),
    {
        let mut out = selector(SERVE_SIGNATURE);
        let mut enc = abi_encode_request(&self.method, &self.uri, &self.headers, &self.body);
        out.append(&mut enc);
        out
    }
}

/// Call data of the no-argument initializer.
pub fn start_calldata() -> (r: Vec<u8>)
    ensures
        r@ == selector_of(START_SIGNATURE@),
{
    selector(START_SIGNATURE)
}

/// Decodes the data a program call returned into a response, if it is a
/// well-formed encoding in which no offset or length can overflow.
pub fn decode_response(data: &Vec<u8>) -> (r: Option<ResponseEnvelope>)
    ensures
        r.is_some() == (words_bounded(data@) && response_decoding(data@).is_some()),
        r.is_some() ==> response_view(r.unwrap()) == response_decoding(data@).unwrap(),
{
    if !check_words(data) {
        return None;
    }
    abi_decode_response(data)
}

} // verus!
