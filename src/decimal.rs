//! Fixed-point decimals: an amount is a count of units of 10^-8, and the
//! text forms the exchange reads and writes.
use vstd::prelude::*;
use vstd::string::*;

verus! {

/// Units per whole: amounts carry eight decimal places.
pub const SCALE: u64 = 100_000_000;

pub open spec fn pow10(k: nat) -> nat
    decreases k,
{
    if k == 0 {
        1
    } else {
        10 * pow10((k - 1) as nat)
    }
}

pub open spec fn digit_char(d: nat) -> char {
    if d == 0 { '0' }
    else if d == 1 { '1' }
    else if d == 2 { '2' }
    else if d == 3 { '3' }
    else if d == 4 { '4' }
    else if d == 5 { '5' }
    else if d == 6 { '6' }
    else if d == 7 { '7' }
    else if d == 8 { '8' }
    else { '9' }
}

/// Decimal digits of `n`, most significant first, without leading zeros.
pub open spec fn nat_str(n: nat) -> Seq<char>
    decreases n,
{
    if n < 10 {
        seq![digit_char(n)]
    } else {
        nat_str(n / 10) + seq![digit_char(n % 10)]
    }
}

/// The last `k` decimal digits of `n`, zero-padded to exactly `k` characters.
pub open spec fn padded_str(n: nat, k: nat) -> Seq<char>
    decreases k,
{
    if k == 0 {
        Seq::empty()
    } else {
        padded_str(n / 10, (k - 1) as nat) + seq![digit_char(n % 10)]
    }
}

/// `n / 10^d` written with exactly `d` decimals (no point when `d == 0`).
pub open spec fn fixed_str(n: nat, d: nat) -> Seq<char> {
    if d == 0 {
        nat_str(n)
    } else {
        nat_str(n / pow10(d)) + seq!['.'] + padded_str(n % pow10(d), d)
    }
}

fn digit_str(d: u128) -> (r: &'static str)
    requires
        d < 10,
    ensures
        r@ == seq![digit_char(d as nat)],
{
    proof {
        reveal_strlit("0");
        reveal_strlit("1");
        reveal_strlit("2");
        reveal_strlit("3");
        reveal_strlit("4");
        reveal_strlit("5");
        reveal_strlit("6");
        reveal_strlit("7");
        reveal_strlit("8");
        reveal_strlit("9");
    }
    if d == 0 { "0" }
    else if d == 1 { "1" }
    else if d == 2 { "2" }
    else if d == 3 { "3" }
    else if d == 4 { "4" }
    else if d == 5 { "5" }
    else if d == 6 { "6" }
    else if d == 7 { "7" }
    else if d == 8 { "8" }
    else { "9" }
}

/// Writes `n` in decimal.
pub fn format_nat(n: u128) -> (r: String)
    ensures
        r@ == nat_str(n as nat),
    decreases n,
{
    if n < 10 {
        String::from_str(digit_str(n))
    } else {
        let mut s = format_nat(n / 10);
        s.append(digit_str(n % 10));
        s
    }
}

fn format_padded(n: u128, k: u32) -> (r: String)
    ensures
        r@ == padded_str(n as nat, k as nat),
    decreases k,
{
    if k == 0 {
        String::new()
    } else {
        let mut s = format_padded(n / 10, k - 1);
        s.append(digit_str(n % 10));
        s
    }
}

fn pow10_exec(k: u32) -> (r: u128)
    requires
        k <= 30,
    ensures
        r as nat == pow10(k as nat),
    decreases k,
{
    if k == 0 {
        1
    } else {
        let p = pow10_exec(k - 1);
        proof { lemma_pow10_mono((k - 1) as nat, 29); reveal_with_fuel(pow10, 30); }
        10 * p
    }
}

pub proof fn lemma_pow10_mono(k: nat, m: nat)
    requires
        k <= m,
    ensures
        1 <= pow10(k) <= pow10(m),
    decreases m,
{
    if m > k {
        lemma_pow10_mono(k, (m - 1) as nat);
    } else if k > 0 {
        lemma_pow10_mono((k - 1) as nat, (k - 1) as nat);
    }
}

/// Writes `n / 10^d` with exactly `d` decimals, the digits past the point
/// being the low `d` digits of `n`.
pub fn format_fixed(n: u128, d: u32) -> (r: String)
    requires
        d <= 30,
    ensures
        r@ == fixed_str(n as nat, d as nat),
{
    if d == 0 {
        format_nat(n)
    } else {
        let p = pow10_exec(d);
        proof { lemma_pow10_mono(0, d as nat); }
        let mut s = format_nat(n / p);
        s.append(".");
        let frac = format_padded(n % p, d);
        s.append(frac.as_str());
        proof { reveal_strlit("."); }
        s
    }
}

pub open spec fn is_digit(c: char) -> bool {
    '0' <= c && c <= '9'
}

pub open spec fn digit_of(c: char) -> nat {
    (c as int - '0' as int) as nat
}

pub open spec fn all_digits(s: Seq<char>) -> bool {
    forall|i: int| 0 <= i < s.len() ==> is_digit(#[trigger] s[i])
}

/// The number that a string of decimal digits denotes.
pub open spec fn digits_value(s: Seq<char>) -> nat
    decreases s.len(),
{
    if s.len() == 0 {
        0
    } else {
        10 * digits_value(s.drop_last()) + digit_of(s.last())
    }
}

/// Most digits after the point that an amount carries.
pub const MAX_DECIMALS: u64 = 8;

/// `s` reads `int.frac` with the point at `k`: at least one digit on each
/// side.
pub open spec fn point_at(s: Seq<char>, k: int) -> bool {
    &&& 1 <= k && k + 1 < s.len()
    &&& s[k] == '.'
    &&& all_digits(s.subrange(0, k))
    &&& all_digits(s.subrange(k + 1, s.len() as int))
}

/// Decimals of `int.frac` (point at `k`) that count: at most eight.
pub open spec fn kept_decimals(s: Seq<char>, k: int) -> int {
    if s.len() - k - 1 <= MAX_DECIMALS {
        s.len() - k - 1
    } else {
        MAX_DECIMALS as int
    }
}

pub open spec fn units_with_point(s: Seq<char>, k: int) -> nat {
    (digits_value(s.subrange(0, k)) * SCALE + digits_value(
        s.subrange(k + 1, k + 1 + kept_decimals(s, k)),
    ) * pow10((MAX_DECIMALS - kept_decimals(s, k)) as nat)) as nat
}

/// The amount, in units of 10^-8, that `s` denotes: digits, optionally
/// followed by a point and one or more digits, of which those past the
/// eighth are dropped (truncation toward zero). `None` for anything else.
pub open spec fn decimal_units(s: Seq<char>) -> Option<nat> {
    if s.len() > 0 && all_digits(s) {
        Some((digits_value(s) * SCALE) as nat)
    } else if exists|k: int| point_at(s, k) {
        Some(units_with_point(s, choose|k: int| point_at(s, k)))
    } else {
        None
    }
}

/// Where the value saturates while digits are read.
const SATURATION: u128 = 0x1_0000_0000_0000_0000;

pub proof fn lemma_digits_value_bound(s: Seq<char>)
    requires
        all_digits(s),
    ensures
        digits_value(s) < pow10(s.len()),
    decreases s.len(),
{
    if s.len() > 0 {
        assert(is_digit(s[s.len() - 1]));
        lemma_digits_value_bound(s.drop_last());
    }
}

/// Reads `s[from..to]` as digits; `None` where a character is not a digit,
/// else the value, capped at 2^64.
fn scan_digits(s: &str, from: usize, to: usize) -> (r: Option<u128>)
    requires
        from <= to <= s@.len(),
    ensures
        r is Some <==> all_digits(s@.subrange(from as int, to as int)),
        r matches Some(v) ==> (if digits_value(s@.subrange(from as int, to as int))
            < SATURATION { v == digits_value(s@.subrange(from as int, to as int)) } else {
            v == SATURATION }),
{
    let mut acc: u128 = 0;
    let mut i: usize = from;
    while i < to
        invariant
            from <= i <= to <= s@.len(),
            all_digits(s@.subrange(from as int, i as int)),
            if digits_value(s@.subrange(from as int, i as int)) < SATURATION {
                acc == digits_value(s@.subrange(from as int, i as int))
            } else {
                acc == SATURATION
            },
        decreases to - i,
    {
        let c = s.get_char(i);
        let ghost prev = s@.subrange(from as int, i as int);
        let ghost next = s@.subrange(from as int, i + 1);
        assert(next.drop_last() == prev);
        if !('0' <= c && c <= '9') {
            assert(!is_digit(next[i - from]));
            return None;
        }
        let d = (c as u32 - '0' as u32) as u128;
        assert(all_digits(next)) by {
            assert forall|j: int| 0 <= j < next.len() implies is_digit(#[trigger] next[j]) by {
                if j < prev.len() {
                    assert(next[j] == prev[j]);
                }
            }
        }
        assert(next.last() == c);
        assert(digits_value(next) == 10 * digits_value(prev) + digit_of(c));
        if acc > SATURATION / 10 {
            acc = SATURATION;
        } else {
            acc = 10 * acc + d;
            if acc > SATURATION {
                acc = SATURATION;
            }
        }
        i = i + 1;
    }
    Some(acc)
}

proof fn lemma_point_unique(s: Seq<char>, a: int, b: int)
    requires
        point_at(s, b),
        0 <= a < s.len(),
        s[a] == '.',
    ensures
        a == b,
{
    if a < b {
        assert(s.subrange(0, b)[a] == s[a]);
        assert(is_digit(s.subrange(0, b)[a]));
    } else if a > b {
        assert(s.subrange(b + 1, s.len() as int)[a - b - 1] == s[a]);
        assert(is_digit(s.subrange(b + 1, s.len() as int)[a - b - 1]));
    }
}

/// Reads an amount written as digits with an optional point and decimals
/// ("50", "0.00012"), in units of 10^-8, truncating decimals past the eighth.
/// `None` where the text is not of that form or the amount does not fit in a
/// `u64`.
pub fn parse_decimal(s: &str) -> (r: Option<u64>)
    ensures
        match decimal_units(s@) {
            Some(v) => if v <= u64::MAX { r == Some(v as u64) } else { r is None },
            None => r is None,
        },
{
    let n = s.unicode_len();
    let mut k: usize = 0;
    while k < n
        invariant
            n == s@.len(),
            k <= n,
            forall|j: int| 0 <= j < k ==> s@[j] != '.',
        ensures
            k < n ==> s@[k as int] == '.',
        decreases n - k,
    {
        if s.get_char(k) == '.' {
            break;
        }
        k = k + 1;
    }
    if k == n {
        assert(s@.subrange(0, n as int) == s@);
        assert(!exists|j: int| point_at(s@, j));
        if n == 0 {
            return None;
        }
        let v = match scan_digits(s, 0, n) {
            Some(v) => v,
            None => return None,
        };
        if v > (u64::MAX / SCALE) as u128 {
            return None;
        }
        return Some((v * SCALE as u128) as u64);
    }
    assert(s@[k as int] == '.');
    assert(!all_digits(s@));
    assert forall|j: int| point_at(s@, j) implies j == k by {
        lemma_point_unique(s@, k as int, j);
    }
    assert(point_at(s@, k as int) ==> decimal_units(s@) == Some(units_with_point(s@, k as int)));
    assert(!point_at(s@, k as int) ==> decimal_units(s@) is None);
    if k == 0 || k + 1 == n {
        return None;
    }
    let iv = match scan_digits(s, 0, k) {
        Some(v) => v,
        None => return None,
    };
    if scan_digits(s, k + 1, n).is_none() {
        return None;
    }
    let all_len: usize = n - k - 1;
    let kept: usize = if all_len <= MAX_DECIMALS as usize { all_len } else { MAX_DECIMALS as usize };
    assert(kept as int == kept_decimals(s@, k as int));
    assert(all_digits(s@.subrange(k + 1, k + 1 + kept))) by {
        let whole = s@.subrange(k + 1, n as int);
        let part = s@.subrange(k + 1, k + 1 + kept);
        assert forall|j: int| 0 <= j < part.len() implies is_digit(#[trigger] part[j]) by {
            assert(part[j] == whole[j]);
        }
    }
    let fv = match scan_digits(s, k + 1, k + 1 + kept) {
        Some(v) => v,
        None => return None,
    };
    assert(point_at(s@, k as int));
    let flen: u32 = kept as u32;
    proof {
        lemma_digits_value_bound(s@.subrange(k + 1, k + 1 + kept));
        lemma_pow10_mono(flen as nat, 8);
        lemma_pow10_mono((8 - flen) as nat, 8);
        reveal_with_fuel(pow10, 9);
    }
    if iv > (u64::MAX / SCALE) as u128 {
        assert(units_with_point(s@, k as int) > u64::MAX) by (nonlinear_arith)
            requires
                units_with_point(s@, k as int) >= digits_value(s@.subrange(0, k as int)) * SCALE,
                digits_value(s@.subrange(0, k as int)) >= iv,
                iv > u64::MAX / SCALE,
        ;
        return None;
    }
    let p = pow10_exec(8 - flen);
    assert(fv * p <= 100_000_000u128 * 100_000_000u128) by (nonlinear_arith)
        requires
            fv < 100_000_000,
            p <= 100_000_000,
    ;
    let total: u128 = iv * SCALE as u128 + fv * p;
    if total > u64::MAX as u128 {
        return None;
    }
    Some(total as u64)
}

} // verus!
