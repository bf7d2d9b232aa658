//! The decisions of the trading cycle: the burst of buy orders at the
//! trigger, and the position from fill to sale. The caller performs the
//! requests and sleeps and reports what came back.
use vstd::prelude::*;
use crate::decimal::{fixed_str, pow10};
use crate::quantize::{
    buy_limit_price, calculate_token_quantity, fee_adjust, fee_adjusted, price_decimals,
    price_text, quantity_decimals, ratio_truncated, reached_target, sell_decimals,
    sell_limit_price, sell_quantity, target_reached, truncate_price, truncated,
};

verus! {

/// Waves of orders fired for one quote before the price is fetched again.
pub const MAX_WAVES: u32 = 5;

/// Identical orders fired at once in a wave.
pub const WAVE_SIZE: usize = 20;

/// Number of accepted attempts in a wave.
pub open spec fn count_accepted(s: Seq<bool>) -> nat
    decreases s.len(),
{
    if s.len() == 0 {
        0
    } else {
        count_accepted(s.drop_last()) + if s.last() { 1nat } else { 0nat }
    }
}

/// What the caller does after a wave has been joined.
#[derive(PartialEq, Eq, Structural, Clone, Copy, Debug)]
pub enum BurstAction {
    /// An order was accepted: fire no more waves.
    Placed,
    /// Sleep a second and fire the next wave at the same price.
    NextWave,
    /// All waves failed: fetch a fresh price and start over.
    Requote,
}

/// The burst placer's state: waves fired at the current quote, and the
/// accepted attempts once an order is placed.
#[derive(PartialEq, Eq, Structural, Clone, Copy, Debug)]
pub struct Burst {
    pub waves_fired: u32,
    pub accepted: usize,
    pub placed: bool,
}

impl Burst {
    pub open spec fn wf(self) -> bool {
        &&& self.waves_fired < MAX_WAVES
        &&& (self.placed <==> self.accepted > 0)
    }

    /// A burst before its first wave.
    pub fn new() -> (r: Burst)
        ensures
            r.wf(),
            r.waves_fired == 0,
            !r.placed,
    {
        Burst { waves_fired: 0, accepted: 0, placed: false }
    }

    /// Records the joined outcomes of a wave (true for an accepted order) and
    /// decides what follows.
    pub fn record_wave(&mut self, outcomes: &Vec<bool>) -> (r: BurstAction)
        requires
            old(self).wf(),
            !old(self).placed,
        ensures
            final(self).wf(),
            count_accepted(outcomes@) > 0 ==> r == BurstAction::Placed && final(self).placed
                && final(self).accepted == count_accepted(outcomes@) && final(self).waves_fired
                == old(self).waves_fired,
            count_accepted(outcomes@) == 0 && old(self).waves_fired + 1 < MAX_WAVES ==> r
                == BurstAction::NextWave && *final(self) == (Burst {
                waves_fired: (old(self).waves_fired + 1) as u32,
                accepted: 0,
                placed: false,
            }),
            count_accepted(outcomes@) == 0 && old(self).waves_fired + 1 == MAX_WAVES ==> r
                == BurstAction::Requote && *final(self) == Burst::new_spec(),
    {
        let mut n: usize = 0;
        let mut i: usize = 0;
        while i < outcomes.len()
            invariant
                i <= outcomes@.len(),
                n == count_accepted(outcomes@.subrange(0, i as int)),
                n <= i,
            decreases outcomes@.len() - i,
        {
            assert(outcomes@.subrange(0, i + 1).drop_last() == outcomes@.subrange(0, i as int));
            if outcomes[i] {
                n = n + 1;
            }
            i = i + 1;
        }
        assert(outcomes@.subrange(0, outcomes@.len() as int) == outcomes@);
        if n > 0 {
            self.accepted = n;
            self.placed = true;
            BurstAction::Placed
        } else if self.waves_fired + 1 < MAX_WAVES {
            self.waves_fired = self.waves_fired + 1;
            BurstAction::NextWave
        } else {
            self.waves_fired = 0;
            BurstAction::Requote
        }
    }

    pub open spec fn new_spec() -> Burst {
        Burst { waves_fired: 0, accepted: 0, placed: false }
    }
}

/// A limit order's price, as a number and as sent, and its quantity text.
#[derive(Clone, Debug)]
pub struct OrderPlan {
    pub price: u64,
    pub price_text: String,
    pub qty: String,
}

/// The buy order for a quote: the last price raised by 0.5% and truncated,
/// and the tokens that the quote amount less the fee buffer buys at it.
/// `None` when the limit truncates to zero.
pub fn plan_buy(last_price: u64, quote_amount: u64) -> (r: Option<OrderPlan>)
    requires
        last_price as nat * 1005 / 1000 <= u64::MAX,
    ensures
        r is None <==> truncated(last_price as nat * 1005 / 1000) == 0,
        r matches Some(plan) ==> {
            let p = truncated(last_price as nat * 1005 / 1000);
            &&& plan.price == p
            &&& plan.price_text@ == fixed_str(
                p / pow10((8 - price_decimals(p)) as nat),
                price_decimals(p),
            )
            &&& plan.qty@ == fixed_str(
                ratio_truncated(fee_adjusted(quote_amount as nat), p, quantity_decimals(p)),
                quantity_decimals(p),
            )
        },
{
    let price = buy_limit_price(last_price);
    if price == 0 {
        return None;
    }
    let qty = calculate_token_quantity(fee_adjust(quote_amount), price);
    Some(OrderPlan { price, price_text: price_text(price), qty })
}

/// Where the position stands.
#[derive(PartialEq, Eq, Structural, Clone, Copy, Debug)]
pub enum Phase {
    /// A buy was accepted; waiting for the balance to show it.
    AwaitingFill,
    /// Bought at about `buy_price`; waiting for the price to reach the target.
    WatchingPrice { buy_price: u64 },
    /// The target was reached at the truncated price `last_price`; selling.
    Selling { last_price: u64 },
    /// Sold.
    Done,
}

/// The position after the buy, with the sell-target multiplier in units of
/// 10^-8 (1.05 is 105_000_000).
#[derive(PartialEq, Eq, Structural, Clone, Copy, Debug)]
pub struct Position {
    pub phase: Phase,
    pub multiplier: u64,
}

impl Position {
    /// A position whose buy has just been accepted.
    pub fn new(multiplier: u64) -> (r: Position)
        ensures
            r == (Position { phase: Phase::AwaitingFill, multiplier }),
    {
        Position { phase: Phase::AwaitingFill, multiplier }
    }

    /// A poll of balance and price while awaiting the fill: a balance above
    /// zero opens the position at the truncated price sampled with it (an
    /// approximation of the fill price, not the fill price itself).
    pub fn on_fill_poll(&mut self, balance: u64, price: u64)
        requires
            old(self).phase == Phase::AwaitingFill,
        ensures
            final(self).multiplier == old(self).multiplier,
            final(self).phase == (if balance > 0 {
                Phase::WatchingPrice { buy_price: truncated(price as nat) as u64 }
            } else {
                Phase::AwaitingFill
            }),
    {
        if balance > 0 {
            self.phase = Phase::WatchingPrice { buy_price: truncate_price(price) };
        }
    }

    /// A price read while watching: once the truncated price reaches
    /// `buy_price * multiplier`, the position goes to selling at it.
    pub fn on_price(&mut self, price: u64)
        requires
            old(self).phase is WatchingPrice,
        ensures
            final(self).multiplier == old(self).multiplier,
            final(self).phase == (if target_reached(
                price as nat,
                old(self).phase->buy_price as nat,
                old(self).multiplier as nat,
            ) {
                Phase::Selling { last_price: truncated(price as nat) as u64 }
            } else {
                old(self).phase
            }),
    {
        if let Phase::WatchingPrice { buy_price } = self.phase {
            if reached_target(price, buy_price, self.multiplier) {
                self.phase = Phase::Selling { last_price: truncate_price(price) };
            }
        }
    }

    /// The sell order for the current balance: the price lowered by 0.3% and
    /// truncated, and the balance less the fee buffer at the sell band's
    /// precision.
    pub fn plan_sell(&self, balance: u64) -> (r: OrderPlan)
        requires
            self.phase is Selling,
        ensures
            ({
                let p = truncated(self.phase->last_price as nat * 997 / 1000);
                &&& r.price == p
                &&& r.price_text@ == fixed_str(
                    p / pow10((8 - price_decimals(p)) as nat),
                    price_decimals(p),
                )
                &&& r.qty@ == fixed_str(
                    fee_adjusted(balance as nat) / pow10((8 - sell_decimals(p)) as nat),
                    sell_decimals(p),
                )
            }),
    {
        let last = match self.phase {
            Phase::Selling { last_price } => last_price,
            _ => 0,
        };
        let price = sell_limit_price(last);
        OrderPlan { price, price_text: price_text(price), qty: sell_quantity(balance, price) }
    }

    /// The response to a sell order: an accepted one ends the cycle.
    pub fn on_sell_response(&mut self, accepted: bool)
        requires
            old(self).phase is Selling,
        ensures
            final(self).multiplier == old(self).multiplier,
            final(self).phase == (if accepted { Phase::Done } else { old(self).phase }),
    {
        if accepted {
            self.phase = Phase::Done;
        }
    }
}

/// A wave in which exactly one attempt was accepted counts one acceptance,
/// so `record_wave` places the order with a single recorded fill.
pub proof fn lemma_single_acceptance(outcomes: Seq<bool>, k: int)
    requires
        0 <= k < outcomes.len(),
        outcomes[k],
        forall|j: int| 0 <= j < outcomes.len() && j != k ==> !outcomes[j],
    ensures
        count_accepted(outcomes) == 1,
    decreases outcomes.len(),
{
    if k == outcomes.len() - 1 {
        lemma_none_accepted(outcomes.drop_last());
    } else {
        lemma_single_acceptance(outcomes.drop_last(), k);
    }
}

/// A wave with no accepted attempt counts none.
pub proof fn lemma_none_accepted(outcomes: Seq<bool>)
    requires
        forall|j: int| 0 <= j < outcomes.len() ==> !outcomes[j],
    ensures
        count_accepted(outcomes) == 0,
    decreases outcomes.len(),
{
    if outcomes.len() > 0 {
        lemma_none_accepted(outcomes.drop_last());
    }
}

} // verus!
