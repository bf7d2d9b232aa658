//! The texts of requests to the exchange and the reading of its responses.
use vstd::prelude::*;
use vstd::string::*;
use vstd::utf8::encode_utf8;
use crate::decimal::{decimal_units, parse_decimal};

verus! {

/// Bytes that a query string carries as they are: letters, digits and `-_.~`.
pub open spec fn is_unreserved(b: u8) -> bool {
    (65 <= b && b <= 90) || (97 <= b && b <= 122) || (48 <= b && b <= 57) || b == 45 || b == 95
        || b == 46 || b == 126
}

/// The upper-case hex digit, as an ASCII byte, of a value below 16.
pub open spec fn hex_upper(v: nat) -> u8 {
    if v < 10 {
        (48 + v) as u8
    } else {
        (55 + v) as u8
    }
}

/// One byte of a key or value in a query string: itself when unreserved,
/// else `%` and two upper-case hex digits.
pub open spec fn encoded_byte(b: u8) -> Seq<u8> {
    if is_unreserved(b) {
        seq![b]
    } else {
        seq![37u8, hex_upper((b / 16) as nat), hex_upper((b % 16) as nat)]
    }
}

/// Percent-encoding of a byte string.
pub open spec fn url_encoded(b: Seq<u8>) -> Seq<u8>
    decreases b.len(),
{
    if b.len() == 0 {
        Seq::empty()
    } else {
        url_encoded(b.drop_last()) + encoded_byte(b.last())
    }
}

/// `key=value`, each percent-encoded from its UTF-8 bytes.
pub open spec fn param_bytes(p: (String, String)) -> Seq<u8> {
    url_encoded(encode_utf8(p.0@)) + seq![61u8] + url_encoded(encode_utf8(p.1@))
}

/// The parameters as `k1=v1&k2=v2...`, in the order given.
pub open spec fn query_bytes(ps: Seq<(String, String)>) -> Seq<u8>
    decreases ps.len(),
{
    if ps.len() == 0 {
        Seq::empty()
    } else if ps.len() == 1 {
        param_bytes(ps[0])
    } else {
        query_bytes(ps.drop_last()) + seq![38u8] + param_bytes(ps.last())
    }
}

/// The characters of ASCII bytes.
pub open spec fn ascii_text(b: Seq<u8>) -> Seq<char> {
    b.map_values(|c: u8| c as char)
}

/// The query string of the parameters.
pub open spec fn query_text(ps: Seq<(String, String)>) -> Seq<char> {
    ascii_text(query_bytes(ps))
}

/// Relies on `String::from_utf8`: bytes below 128 are valid UTF-8, each the
/// character of the same value.
#[verifier::external_body]
fn ascii_string(b: Vec<u8>) -> (r: String)
    requires
        forall|i: int| 0 <= i < b@.len() ==> b@[i] < 128,
    ensures
        r@ == ascii_text(b@),
{
    String::from_utf8(b).unwrap()
}

fn hex_upper_exec(v: u8) -> (r: u8)
    requires
        v < 16,
    ensures
        r == hex_upper(v as nat),
{
    if v < 10 {
        48 + v
    } else {
        55 + v
    }
}

/// Appends the percent-encoding of `b` to `out`.
fn push_encoded(out: &mut Vec<u8>, b: &[u8])
    ensures
        final(out)@ == old(out)@ + url_encoded(b@),
{
    let ghost start = out@;
    let mut i: usize = 0;
    while i < b.len()
        invariant
            i <= b@.len(),
            out@ == start + url_encoded(b@.subrange(0, i as int)),
        decreases b@.len() - i,
    {
        let c = b[i];
        assert(b@.subrange(0, i + 1).drop_last() == b@.subrange(0, i as int));
        if (65 <= c && c <= 90) || (97 <= c && c <= 122) || (48 <= c && c <= 57) || c == 45
            || c == 95 || c == 46 || c == 126 {
            out.push(c);
        } else {
            out.push(37);
            out.push(hex_upper_exec(c / 16));
            out.push(hex_upper_exec(c % 16));
        }
        assert(out@ =~= start + url_encoded(b@.subrange(0, i + 1)));
        i = i + 1;
    }
    assert(b@.subrange(0, b@.len() as int) == b@);
}

/// A percent-encoded byte string is ASCII and holds no `&`, `=` or space,
/// so the separators of a query string stay unambiguous.
pub proof fn lemma_url_encoded_safe(b: Seq<u8>)
    ensures
        forall|i: int| #![auto] 0 <= i < url_encoded(b).len() ==> url_encoded(b)[i] < 128
            && url_encoded(b)[i] != 38 && url_encoded(b)[i] != 61 && url_encoded(b)[i] != 32,
    decreases b.len(),
{
    if b.len() > 0 {
        lemma_url_encoded_safe(b.drop_last());
        let e = url_encoded(b);
        let p = url_encoded(b.drop_last());
        assert forall|i: int| #![auto] 0 <= i < e.len() implies e[i] < 128 && e[i] != 38 && e[i]
            != 61 && e[i] != 32 by {
            if i < p.len() {
                assert(e[i] == p[i]);
            }
        }
    }
}

/// The value of an upper-case hex digit given as an ASCII byte.
pub open spec fn hex_value(c: u8) -> nat {
    if 48 <= c && c <= 57 {
        (c - 48) as nat
    } else if 65 <= c && c <= 70 {
        (c - 55) as nat
    } else {
        0
    }
}

/// Percent-decoding: each `%XY` becomes the byte of hex value `XY`, any
/// other byte stays.
pub open spec fn url_decoded(e: Seq<u8>) -> Seq<u8>
    decreases e.len(),
{
    if e.len() == 0 {
        Seq::empty()
    } else if e.len() >= 3 && e[e.len() - 3] == 37 {
        url_decoded(e.subrange(0, e.len() - 3)).push(
            (hex_value(e[e.len() - 2]) * 16 + hex_value(e[e.len() - 1])) as u8,
        )
    } else {
        url_decoded(e.drop_last()).push(e.last())
    }
}

proof fn lemma_url_encoded_tail(b: Seq<u8>)
    ensures
        url_encoded(b).len() >= 1 ==> url_encoded(b)[url_encoded(b).len() - 1] != 37,
        url_encoded(b).len() >= 2 ==> url_encoded(b)[url_encoded(b).len() - 2] != 37,
    decreases b.len(),
{
    if b.len() > 0 {
        let p = url_encoded(b.drop_last());
        let e = url_encoded(b);
        lemma_url_encoded_tail(b.drop_last());
        if is_unreserved(b.last()) && e.len() >= 2 {
            assert(e[e.len() - 2] == p[p.len() - 1]);
        }
    }
}

/// Percent-decoding undoes percent-encoding: an encoded key or value gives
/// back its bytes.
pub proof fn lemma_url_round_trip(b: Seq<u8>)
    ensures
        url_decoded(url_encoded(b)) == b,
    decreases b.len(),
{
    if b.len() > 0 {
        let c = b.last();
        let p = url_encoded(b.drop_last());
        let e = url_encoded(b);
        lemma_url_round_trip(b.drop_last());
        lemma_url_encoded_tail(b.drop_last());
        if is_unreserved(c) {
            if e.len() >= 3 {
                assert(e[e.len() - 3] == p[p.len() - 2]);
            }
            assert(e.drop_last() =~= p);
        } else {
            assert(e.subrange(0, e.len() - 3) =~= p);
            assert(e[e.len() - 3] == 37);
            assert(hex_value(hex_upper((c / 16) as nat)) == c / 16);
            assert(hex_value(hex_upper((c % 16) as nat)) == c % 16);
        }
        assert(b =~= b.drop_last().push(c));
    }
}

/// A `key=value` piece of a query string splits back into its pair: the
/// first `=` stands right after the encoded key, no `&` or other `=` occurs,
/// and decoding either side gives the UTF-8 bytes of the key and the value.
pub proof fn lemma_param_splits(p: (String, String))
    ensures
        ({
            let e = param_bytes(p);
            let k = url_encoded(encode_utf8(p.0@)).len() as int;
            &&& e[k] == 61
            &&& forall|i: int| 0 <= i < e.len() && i != k ==> #[trigger] e[i] != 61 && e[i] != 38
            &&& url_decoded(e.subrange(0, k)) == encode_utf8(p.0@)
            &&& url_decoded(e.subrange(k + 1, e.len() as int)) == encode_utf8(p.1@)
        }),
{
    let kk = url_encoded(encode_utf8(p.0@));
    let vv = url_encoded(encode_utf8(p.1@));
    let e = param_bytes(p);
    let k = kk.len() as int;
    lemma_url_encoded_safe(encode_utf8(p.0@));
    lemma_url_encoded_safe(encode_utf8(p.1@));
    lemma_url_round_trip(encode_utf8(p.0@));
    lemma_url_round_trip(encode_utf8(p.1@));
    assert(e.subrange(0, k) =~= kk);
    assert(e.subrange(k + 1, e.len() as int) =~= vv);
    assert forall|i: int| 0 <= i < e.len() && i != k implies #[trigger] e[i] != 61 && e[i] != 38 by {
        if i < k {
            assert(e[i] == kk[i]);
        } else {
            assert(e[i] == vv[i - k - 1]);
        }
    }
}

proof fn lemma_param_bytes_ascii(p: (String, String))
    ensures
        forall|i: int| #![auto] 0 <= i < param_bytes(p).len() ==> param_bytes(p)[i] < 128,
{
    let k = url_encoded(encode_utf8(p.0@));
    let v = url_encoded(encode_utf8(p.1@));
    lemma_url_encoded_safe(encode_utf8(p.0@));
    lemma_url_encoded_safe(encode_utf8(p.1@));
    let e = param_bytes(p);
    assert forall|i: int| #![auto] 0 <= i < e.len() implies e[i] < 128 by {
        if i < k.len() {
            assert(e[i] == k[i]);
        } else if i > k.len() {
            assert(e[i] == v[i - k.len() - 1]);
        }
    }
}

proof fn lemma_query_bytes_ascii(ps: Seq<(String, String)>)
    ensures
        forall|i: int| #![auto] 0 <= i < query_bytes(ps).len() ==> query_bytes(ps)[i] < 128,
    decreases ps.len(),
{
    if ps.len() == 1 {
        lemma_param_bytes_ascii(ps[0]);
    } else if ps.len() > 1 {
        lemma_query_bytes_ascii(ps.drop_last());
        lemma_param_bytes_ascii(ps.last());
        let q = query_bytes(ps.drop_last());
        let t = param_bytes(ps.last());
        let e = query_bytes(ps);
        assert forall|i: int| #![auto] 0 <= i < e.len() implies e[i] < 128 by {
            if i < q.len() {
                assert(e[i] == q[i]);
            } else if i > q.len() {
                assert(e[i] == t[i - q.len() - 1]);
            }
        }
    }
}

/// Writes the query string of a GET request: `key=value` pairs joined by
/// `&` in the order given, keys and values percent-encoded.
pub fn generate_query_str(params: &Vec<(String, String)>) -> (r: String)
    ensures
        r@ == query_text(params@),
{
    let mut out: Vec<u8> = Vec::new();
    let mut i: usize = 0;
    while i < params.len()
        invariant
            i <= params@.len(),
            out@ == query_bytes(params@.subrange(0, i as int)),
        decreases params@.len() - i,
    {
        let ghost sub = params@.subrange(0, i + 1);
        assert(sub.drop_last() == params@.subrange(0, i as int));
        assert(sub.last() == params@[i as int]);
        if i > 0 {
            out.push(38);
        }
        push_encoded(&mut out, params[i].0.as_str().as_bytes());
        out.push(61);
        push_encoded(&mut out, params[i].1.as_str().as_bytes());
        if i == 0 {
            assert(query_bytes(sub) == param_bytes(sub[0]));
        } else {
            assert(query_bytes(sub) == query_bytes(sub.drop_last()) + seq![38u8] + param_bytes(
                sub.last(),
            ));
        }
        assert(out@ =~= query_bytes(sub));
        i = i + 1;
    }
    assert(params@.subrange(0, params@.len() as int) == params@);
    proof { lemma_query_bytes_ascii(params@); }
    ascii_string(out)
}

/// `pat` occurs in `s` starting at `i`.
pub open spec fn occurs_at(s: Seq<char>, pat: Seq<char>, i: int) -> bool {
    0 <= i && i + pat.len() <= s.len() && s.subrange(i, i + pat.len()) == pat
}

pub open spec fn contains(s: Seq<char>, pat: Seq<char>) -> bool {
    exists|i: int| occurs_at(s, pat, i)
}

fn matches_at(s: &str, pat: &str, i: usize) -> (r: bool)
    requires
        i + pat@.len() <= s@.len(),
    ensures
        r == occurs_at(s@, pat@, i as int),
{
    let m = pat.unicode_len();
    let _n = s.unicode_len();
    let mut j: usize = 0;
    while j < m
        invariant
            m == pat@.len(),
            i + m <= s@.len(),
            s@.len() <= usize::MAX,
            j <= m,
            forall|t: int| 0 <= t < j ==> s@[i + t] == pat@[t],
        decreases m - j,
    {
        if s.get_char(i + j) != pat.get_char(j) {
            assert(s@.subrange(i as int, i + m)[j as int] != pat@[j as int]);
            return false;
        }
        j = j + 1;
    }
    assert(s@.subrange(i as int, i + m) =~= pat@);
    true
}

/// Tells whether `pat` occurs anywhere in `s`.
pub fn contains_text(s: &str, pat: &str) -> (r: bool)
    ensures
        r == contains(s@, pat@),
{
    let n = s.unicode_len();
    let m = pat.unicode_len();
    if m > n {
        assert forall|i: int| !occurs_at(s@, pat@, i) by {}
        return false;
    }
    if m == 0 {
        assert(s@.subrange(0, 0) =~= pat@);
        assert(occurs_at(s@, pat@, 0));
        return true;
    }
    let mut i: usize = 0;
    while i <= n - m
        invariant
            n == s@.len(),
            m == pat@.len(),
            0 < m <= n,
            i <= n - m + 1,
            forall|k: int| 0 <= k < i ==> !occurs_at(s@, pat@, k),
        decreases n - m + 1 - i,
    {
        if matches_at(s, pat, i) {
            return true;
        }
        i = i + 1;
    }
    assert forall|k: int| !occurs_at(s@, pat@, k) by {
        if 0 <= k && k < i {
        }
    }
    false
}

/// The marker of an accepted request in a response body.
pub open spec fn success_marker() -> Seq<char> {
    seq!['"', 'r', 'e', 't', 'C', 'o', 'd', 'e', '"', ':', '0']
}

/// An order response reports success when its body holds `"retCode":0`.
pub fn order_accepted(body: &str) -> (r: bool)
    ensures
        r == contains(body@, success_marker()),
{
    let marker = "\"retCode\":0";
    proof {
        reveal_strlit("\"retCode\":0");
        assert(marker@ =~= success_marker());
    }
    contains_text(body, marker)
}

/// The side of an order.
#[derive(PartialEq, Eq, Structural, Clone, Copy, Debug)]
pub enum Side {
    Buy,
    Sell,
}

impl Side {
    pub open spec fn text(self) -> Seq<char> {
        match self {
            Side::Buy => seq!['B', 'u', 'y'],
            Side::Sell => seq!['S', 'e', 'l', 'l'],
        }
    }

    /// The side as the exchange writes it.
    pub fn as_str(&self) -> (r: &'static str)
        ensures
            r@ == self.text(),
    {
        proof {
            reveal_strlit("Buy");
            reveal_strlit("Sell");
        }
        match self {
            Side::Buy => {
                let s = "Buy";
                assert(s@ =~= self.text());
                s
            },
            Side::Sell => {
                let s = "Sell";
                assert(s@ =~= self.text());
                s
            },
        }
    }
}

/// The JSON body that creates a spot limit order.
pub open spec fn order_body_text(
    symbol: Seq<char>,
    side: Side,
    qty: Seq<char>,
    price: Seq<char>,
    link_id: Seq<char>,
) -> Seq<char> {
    "{\"category\":\"spot\",\"symbol\":\""@ + symbol + "\",\"side\":\""@ + side.text()
        + "\",\"orderType\":\"Limit\",\"qty\":\""@ + qty + "\",\"price\":\""@ + price
        + "\",\"orderLinkId\":\""@ + link_id + "\"}"@
}

/// Writes the body of an order-creation request. The fields are written as
/// given: quantities and prices are digits and a point, the symbol and the
/// token need no escaping.
pub fn order_body(symbol: &str, side: Side, qty: &str, price: &str, link_id: &str) -> (r: String)
    ensures
        r@ == order_body_text(symbol@, side, qty@, price@, link_id@),
{
    let mut body = String::from_str("{\"category\":\"spot\",\"symbol\":\"");
    body.append(symbol);
    body.append("\",\"side\":\"");
    body.append(side.as_str());
    body.append("\",\"orderType\":\"Limit\",\"qty\":\"");
    body.append(qty);
    body.append("\",\"price\":\"");
    body.append(price);
    body.append("\",\"orderLinkId\":\"");
    body.append(link_id);
    body.append("\"}");
    body
}

/// The amount that a response reports: its status is zero and the field
/// holds a decimal that fits. `None` otherwise.
pub open spec fn reported_amount(ret_code: Option<i64>, field: Option<&str>) -> Option<nat> {
    if ret_code == Some(0i64) && field is Some {
        match decimal_units(field->0@) {
            Some(v) => if v <= u64::MAX { Some(v) } else { None },
            None => None,
        }
    } else {
        None
    }
}

/// Reads a ticker response (its `retCode` and the `lastPrice` of its first
/// entry): the last price in units of 10^-8, or `None` when the response
/// failed or the price does not parse.
pub fn last_price_from(ret_code: Option<i64>, last_price: Option<&str>) -> (r: Option<u64>)
    ensures
        r == match reported_amount(ret_code, last_price) {
            Some(v) => Some(v as u64),
            None => None::<u64>,
        },
{
    read_amount(ret_code, last_price)
}

/// Reads a wallet-balance response (its `retCode` and the `walletBalance` of
/// the first coin of its first account): the balance in units of 10^-8, or
/// `None` when the response failed or the balance does not parse.
pub fn wallet_balance_from(ret_code: Option<i64>, wallet_balance: Option<&str>) -> (r: Option<u64>)
    ensures
        r == match reported_amount(ret_code, wallet_balance) {
            Some(v) => Some(v as u64),
            None => None::<u64>,
        },
{
    read_amount(ret_code, wallet_balance)
}

fn read_amount(ret_code: Option<i64>, field: Option<&str>) -> (r: Option<u64>)
    ensures
        r == match reported_amount(ret_code, field) {
            Some(v) => Some(v as u64),
            None => None::<u64>,
        },
{
    match (ret_code, field) {
        (Some(0), Some(text)) => parse_decimal(text),
        _ => None,
    }
}

} // verus!
