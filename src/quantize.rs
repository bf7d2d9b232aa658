//! The exchange's tick rules: prices truncated to a band-dependent number
//! of decimals, and order quantities written with a band-dependent precision.
//! All amounts are in units of 10^-8 (see `decimal`).
use vstd::prelude::*;
use crate::decimal::{SCALE, pow10, fixed_str, format_fixed, lemma_pow10_mono};

verus! {

/// The grid, in units, that a price is truncated to: 5 decimals below
/// 0.0001, 4 below 0.001, 3 below 0.01, 2 below 0.1, 1 below 1, 4 below 20,
/// and whole numbers from 20 up.
pub open spec fn price_step(p: nat) -> nat {
    if p < 10_000 {
        1_000
    } else if p < 100_000 {
        10_000
    } else if p < 1_000_000 {
        100_000
    } else if p < 10_000_000 {
        1_000_000
    } else if p < 100_000_000 {
        10_000_000
    } else if p < 2_000_000_000 {
        10_000
    } else {
        100_000_000
    }
}

/// `p` truncated toward zero to its band's grid.
pub open spec fn truncated(p: nat) -> nat {
    (p - p % price_step(p)) as nat
}

/// Truncates a price (units of 10^-8) to the tick grid of its band; never
/// rounds.
pub fn truncate_price(price: u64) -> (r: u64)
    ensures
        r == truncated(price as nat),
{
    let step: u64 = if price < 10_000 {
        1_000
    } else if price < 100_000 {
        10_000
    } else if price < 1_000_000 {
        100_000
    } else if price < 10_000_000 {
        1_000_000
    } else if price < 100_000_000 {
        10_000_000
    } else if price < 2_000_000_000 {
        10_000
    } else {
        100_000_000
    };
    price - price % step
}

/// Truncation never rounds up, and loses less than one step of the grid.
pub proof fn lemma_truncate_never_rounds_up(p: nat)
    ensures
        truncated(p) <= p,
        p - truncated(p) < price_step(p),
        truncated(p) % price_step(p) == 0,
{
    vstd::arithmetic::div_mod::lemma_fundamental_div_mod(p as int, price_step(p) as int);
    vstd::arithmetic::div_mod::lemma_mod_multiples_basic(
        p as int / price_step(p) as int,
        price_step(p) as int,
    );
}

/// Truncating a truncated price changes nothing: each band starts on its
/// own grid, so the result stays in the band of the input.
pub proof fn lemma_truncate_idempotent(p: nat)
    ensures
        truncated(truncated(p)) == truncated(p),
{
    lemma_truncate_never_rounds_up(p);
    let t = truncated(p);
    let step = price_step(p);
    // The band's lower edge is a multiple of its step, so t does not fall below it.
    assert(price_step(t) == step) by {
        if p >= 2_000_000_000 {
            assert(t > p - step);
        } else if p >= 100_000_000 {
            assert(t > p - step);
            assert(t % 10_000 == 0);
        } else if p >= 10_000_000 {
            assert(t % 10_000_000 == 0);
        } else if p >= 1_000_000 {
            assert(t % 1_000_000 == 0);
        } else if p >= 100_000 {
            assert(t % 100_000 == 0);
        } else if p >= 10_000 {
            assert(t % 10_000 == 0);
        }
    }
    assert(t % step == 0);
}

/// Decimals of a buy quantity, by the band of the order price: none below 1,
/// 1 below 100, 3 below 1000, 4 below 10000, else 5.
pub open spec fn quantity_decimals(price: nat) -> nat {
    if price < 100_000_000 {
        0
    } else if price < 10_000_000_000 {
        1
    } else if price < 100_000_000_000 {
        3
    } else if price < 1_000_000_000_000 {
        4
    } else {
        5
    }
}

/// `amount / price`, truncated to `d` decimals, counted in units of 10^-d.
pub open spec fn ratio_truncated(amount: nat, price: nat, d: nat) -> nat
    recommends
        price > 0,
{
    amount * pow10(d) / price
}

/// The number of tokens that `amount` buys at `price` (both in units of
/// 10^-8), truncated, never rounded, to the decimals of the price's band.
pub fn calculate_token_quantity(amount: u64, price: u64) -> (r: String)
    requires
        price > 0,
    ensures
        r@ == fixed_str(
            ratio_truncated(amount as nat, price as nat, quantity_decimals(price as nat)),
            quantity_decimals(price as nat),
        ),
{
    let d: u32 = if price < 100_000_000 {
        0
    } else if price < 10_000_000_000 {
        1
    } else if price < 100_000_000_000 {
        3
    } else if price < 1_000_000_000_000 {
        4
    } else {
        5
    };
    proof {
        lemma_pow10_mono(d as nat, 5);
        reveal_with_fuel(pow10, 6);
    }
    let p10: u128 = if d == 0 { 1 } else if d == 1 { 10 } else if d == 3 { 1_000 } else if d == 4 {
        10_000
    } else {
        100_000
    };
    assert(p10 == pow10(d as nat));
    assert(amount as u128 * p10 <= u64::MAX as u128 * 100_000) by (nonlinear_arith)
        requires
            p10 <= 100_000,
    ;
    let q = (amount as u128 * p10) / price as u128;
    format_fixed(q, d)
}

/// `amount` less the 0.1% fee buffer, truncated to units.
pub open spec fn fee_adjusted(amount: nat) -> nat {
    amount * 999 / 1000
}

/// Takes the 0.1% fee buffer off an amount.
pub fn fee_adjust(amount: u64) -> (r: u64)
    ensures
        r == fee_adjusted(amount as nat),
{
    ((amount as u128 * 999) / 1000) as u64
}

/// Decimals of a sell quantity, by the band of the sell price: none below
/// 0.1, 1 below 10, 2 below 100, 4 below 10000, else 5.
pub open spec fn sell_decimals(price: nat) -> nat {
    if price < 10_000_000 {
        0
    } else if price < 1_000_000_000 {
        1
    } else if price < 10_000_000_000 {
        2
    } else if price < 1_000_000_000_000 {
        4
    } else {
        5
    }
}

/// The sell quantity for a balance: the balance less the fee buffer,
/// truncated to the decimals of the sell price's band.
pub fn sell_quantity(balance: u64, sell_price: u64) -> (r: String)
    ensures
        r@ == fixed_str(
            fee_adjusted(balance as nat) / pow10((8 - sell_decimals(sell_price as nat)) as nat),
            sell_decimals(sell_price as nat),
        ),
{
    let d: u32 = if sell_price < 10_000_000 {
        0
    } else if sell_price < 1_000_000_000 {
        1
    } else if sell_price < 10_000_000_000 {
        2
    } else if sell_price < 1_000_000_000_000 {
        4
    } else {
        5
    };
    proof {
        reveal_with_fuel(pow10, 9);
    }
    let drop: u64 = if d == 0 {
        100_000_000
    } else if d == 1 {
        10_000_000
    } else if d == 2 {
        1_000_000
    } else if d == 4 {
        10_000
    } else {
        1_000
    };
    assert(drop == pow10((8 - d) as nat));
    let q = fee_adjust(balance) / drop;
    format_fixed(q as u128, d)
}

/// The buy limit: the last price raised by 0.5%, then truncated.
pub fn buy_limit_price(last: u64) -> (r: u64)
    requires
        last as nat * 1005 / 1000 <= u64::MAX,
    ensures
        r == truncated(last as nat * 1005 / 1000),
{
    truncate_price(((last as u128 * 1005) / 1000) as u64)
}

/// The sell limit: the last price lowered by 0.3%, then truncated.
pub fn sell_limit_price(last: u64) -> (r: u64)
    ensures
        r == truncated(last as nat * 997 / 1000),
{
    truncate_price(((last as u128 * 997) / 1000) as u64)
}

/// The sell target is reached when the truncated price is at least
/// `buy_price * multiplier` (the multiplier in units of 10^-8).
pub open spec fn target_reached(price: nat, buy_price: nat, multiplier: nat) -> bool {
    truncated(price) * SCALE >= buy_price * multiplier
}

/// Tells whether the truncated `price` has reached the sell target.
pub fn reached_target(price: u64, buy_price: u64, multiplier: u64) -> (r: bool)
    ensures
        r == target_reached(price as nat, buy_price as nat, multiplier as nat),
{
    let t = truncate_price(price);
    assert(buy_price as u128 * multiplier as u128 <= u128::MAX) by (nonlinear_arith)
        requires
            buy_price <= u64::MAX,
            multiplier <= u64::MAX,
    ;
    t as u128 * SCALE as u128 >= buy_price as u128 * multiplier as u128
}

/// Decimals that a price of the band of `p` is written with.
pub open spec fn price_decimals(p: nat) -> nat {
    if p < 10_000 {
        5
    } else if p < 100_000 {
        4
    } else if p < 1_000_000 {
        3
    } else if p < 10_000_000 {
        2
    } else if p < 100_000_000 {
        1
    } else if p < 2_000_000_000 {
        4
    } else {
        0
    }
}

/// Writes a price with the decimals of its band ("50", "1.5000", "0.00009"),
/// dropping any finer digits.
pub fn price_text(p: u64) -> (r: String)
    ensures
        r@ == fixed_str(
            p as nat / pow10((8 - price_decimals(p as nat)) as nat),
            price_decimals(p as nat),
        ),
{
    let d: u32 = if p < 10_000 {
        5
    } else if p < 100_000 {
        4
    } else if p < 1_000_000 {
        3
    } else if p < 10_000_000 {
        2
    } else if p < 100_000_000 {
        1
    } else if p < 2_000_000_000 {
        4
    } else {
        0
    };
    proof {
        reveal_with_fuel(pow10, 9);
    }
    let step: u64 = if d == 0 {
        100_000_000
    } else if d == 1 {
        10_000_000
    } else if d == 2 {
        1_000_000
    } else if d == 3 {
        100_000
    } else if d == 4 {
        10_000
    } else {
        1_000
    };
    assert(step == pow10((8 - d) as nat));
    format_fixed((p / step) as u128, d)
}

} // verus!
