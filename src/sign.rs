//! Request signing and the texts sent to and read from the exchange.
use vstd::prelude::*;
use vstd::string::*;
use hmac::{Hmac, Mac};
use sha2::Sha256;

verus! {

/// The lower-case hex digit of a value below 16.
pub open spec fn hex_digit(v: nat) -> char {
    if v < 10 {
        (('0' as nat) + v) as char
    } else {
        (('a' as nat) + v - 10) as char
    }
}

/// Two lower-case hex digits per byte, high nibble first.
pub open spec fn hex_lower(b: Seq<u8>) -> Seq<char>
    decreases b.len(),
{
    if b.len() == 0 {
        Seq::empty()
    } else {
        hex_lower(b.drop_last()) + seq![
            hex_digit((b.last() / 16) as nat),
            hex_digit((b.last() % 16) as nat),
        ]
    }
}

/// The HMAC-SHA256 tag of the UTF-8 bytes of `msg` under the UTF-8 bytes of `key`.
pub uninterp spec fn hmac_sha256_of(key: Seq<char>, msg: Seq<char>) -> Seq<u8>;

/// Relies on `hex::encode`: each byte becomes two lower-case hex digits,
/// high nibble first, in order.
#[verifier::external_body]
fn hex_encode(b: &Vec<u8>) -> (r: String)
    ensures
        r@ == hex_lower(b@),
{
    hex::encode(b)
}

/// Relies on `Hmac::<Sha256>::new_from_slice` (which takes a key of any
/// length), `Mac::update` and `Mac::finalize`: the 32-byte HMAC-SHA256 tag.
#[verifier::external_body]
fn hmac_sha256(key: &str, msg: &str) -> (r: Vec<u8>)
    ensures
        r@ == hmac_sha256_of(key@, msg@),
        r@.len() == 32,
{
    let mut mac = Hmac::<Sha256>::new_from_slice(key.as_bytes()).unwrap();
    mac.update(msg.as_bytes());
    mac.finalize().into_bytes().to_vec()
}

/// The text that a request signs: timestamp, API key, receive window and
/// payload, in that order.
pub open spec fn signed_text(
    timestamp: Seq<char>,
    payload: Seq<char>,
    api_key: Seq<char>,
    recv_window: Seq<char>,
) -> Seq<char> {
    timestamp + api_key + recv_window + payload
}

/// The signature of a request: the hex of the HMAC-SHA256 of its signed text
/// under the secret key.
pub open spec fn signature_of(
    timestamp: Seq<char>,
    payload: Seq<char>,
    secret_key: Seq<char>,
    api_key: Seq<char>,
    recv_window: Seq<char>,
) -> Seq<char> {
    hex_lower(hmac_sha256_of(secret_key, signed_text(timestamp, payload, api_key, recv_window)))
}

/// Signs a request: lower-case hex HMAC-SHA256, keyed by the secret, of
/// `timestamp + api_key + recv_window + payload`.
pub fn gen_signature(
    timestamp: &str,
    payload: &str,
    secret_key: &str,
    api_key: &str,
    recv_window: &str,
) -> (r: String)
    ensures
        r@ == signature_of(timestamp@, payload@, secret_key@, api_key@, recv_window@),
        r@.len() == 64,
{
    let mut text = String::from_str(timestamp);
    text.append(api_key);
    text.append(recv_window);
    text.append(payload);
    let tag = hmac_sha256(secret_key, text.as_str());
    proof { lemma_hex_lower_len(tag@); }
    hex_encode(&tag)
}

pub proof fn lemma_hex_lower_len(b: Seq<u8>)
    ensures
        hex_lower(b).len() == 2 * b.len(),
    decreases b.len(),
{
    if b.len() > 0 {
        lemma_hex_lower_len(b.drop_last());
    }
}

proof fn lemma_hex_digit_injective(v: nat, w: nat)
    requires
        v < 16,
        w < 16,
        hex_digit(v) == hex_digit(w),
    ensures
        v == w,
{
    assert(hex_digit(v) as nat == if v < 10 { 48 + v } else { 87 + v });
    assert(hex_digit(w) as nat == if w < 10 { 48 + w } else { 87 + w });
}

/// Hex encoding loses nothing: equal encodings come from equal bytes.
pub proof fn lemma_hex_lower_injective(a: Seq<u8>, b: Seq<u8>)
    requires
        hex_lower(a) == hex_lower(b),
    ensures
        a == b,
    decreases a.len(),
{
    lemma_hex_lower_len(a);
    lemma_hex_lower_len(b);
    if a.len() > 0 {
        let ha = hex_lower(a);
        let n = ha.len();
        assert(ha[n - 2] == hex_digit((a.last() / 16) as nat));
        assert(ha[n - 1] == hex_digit((a.last() % 16) as nat));
        assert(hex_lower(b)[n - 2] == hex_digit((b.last() / 16) as nat));
        assert(hex_lower(b)[n - 1] == hex_digit((b.last() % 16) as nat));
        lemma_hex_digit_injective((a.last() / 16) as nat, (b.last() / 16) as nat);
        lemma_hex_digit_injective((a.last() % 16) as nat, (b.last() % 16) as nat);
        assert(a.last() == b.last());
        assert(hex_lower(a.drop_last()) == ha.subrange(0, n - 2));
        assert(hex_lower(b.drop_last()) == hex_lower(b).subrange(0, n - 2));
        lemma_hex_lower_injective(a.drop_last(), b.drop_last());
        assert(a == a.drop_last().push(a.last()));
        assert(b == b.drop_last().push(b.last()));
    }
}

/// A signature is a function of the request's five inputs, and two requests
/// get the same signature only when their HMAC tags are the same.
pub proof fn lemma_signature_deterministic(
    timestamp: Seq<char>,
    payload: Seq<char>,
    secret_key: Seq<char>,
    api_key: Seq<char>,
    recv_window: Seq<char>,
    timestamp2: Seq<char>,
    payload2: Seq<char>,
    secret_key2: Seq<char>,
    api_key2: Seq<char>,
    recv_window2: Seq<char>,
)
    ensures
        timestamp == timestamp2 && payload == payload2 && secret_key == secret_key2 && api_key
            == api_key2 && recv_window == recv_window2 ==> signature_of(
            timestamp,
            payload,
            secret_key,
            api_key,
            recv_window,
        ) == signature_of(timestamp2, payload2, secret_key2, api_key2, recv_window2),
        signature_of(timestamp, payload, secret_key, api_key, recv_window) == signature_of(
            timestamp2,
            payload2,
            secret_key2,
            api_key2,
            recv_window2,
        ) ==> hmac_sha256_of(secret_key, signed_text(timestamp, payload, api_key, recv_window))
            == hmac_sha256_of(
            secret_key2,
            signed_text(timestamp2, payload2, api_key2, recv_window2),
        ),
{
    if signature_of(timestamp, payload, secret_key, api_key, recv_window) == signature_of(
        timestamp2,
        payload2,
        secret_key2,
        api_key2,
        recv_window2,
    ) {
        lemma_hex_lower_injective(
            hmac_sha256_of(secret_key, signed_text(timestamp, payload, api_key, recv_window)),
            hmac_sha256_of(secret_key2, signed_text(timestamp2, payload2, api_key2, recv_window2)),
        );
    }
}

} // verus!
