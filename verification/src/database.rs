//! The arithmetic of the paper-trading report: cost and expected profit of
//! each completed Up + Down pair, and their total.
use vstd::prelude::*;

use crate::config::ONE;
use crate::websocket::div_toward_zero;

verus! {

/// A market in which both legs were bought, with the price paid for each
/// leg in millionths of a USDC.
pub struct CompletedArbitrage {
    pub market_id: String,
    pub up_cost: i64,
    pub down_cost: i64,
}

/// Expected profit of a pair: it pays out one USDC whichever side wins.
pub open spec fn expected_profit_of(a: CompletedArbitrage) -> int {
    ONE - (a.up_cost + a.down_cost)
}

/// Sum of the expected profits of the first `n` pairs.
pub open spec fn total_profit_of(s: Seq<CompletedArbitrage>, n: int) -> int
    decreases n,
{
    if n <= 0 {
        0
    } else {
        total_profit_of(s, n - 1) + expected_profit_of(s[n - 1])
    }
}

impl CompletedArbitrage {
    /// What the pair cost: both legs' prices.
    pub fn total_cost(&self) -> (r: i128)
        ensures
            r == self.up_cost + self.down_cost,
    {
        self.up_cost as i128 + self.down_cost as i128
    }

    /// Expected profit of the pair: one USDC less its cost.
    pub fn expected_profit(&self) -> (r: i128)
        ensures
            r == expected_profit_of(*self),
    {
        ONE as i128 - self.total_cost()
    }

    /// Expected profit as a percentage of the cost, in millionths of a
    /// percent, rounded toward zero; nothing when the cost is zero.
    pub fn profit_percent(&self) -> (r: Option<i128>)
        ensures
            self.up_cost + self.down_cost == 0 ==> r is None,
            self.up_cost + self.down_cost != 0 ==> r == Some(
                div_toward_zero(
                    expected_profit_of(*self) * 100_000_000,
                    self.up_cost + self.down_cost,
                ) as i128,
            ),
    {
        let cost = self.total_cost();
        if cost == 0 {
            return None;
        }
        let scaled: i128 = self.expected_profit() * 100_000_000;
        let scaled_abs: i128 = if scaled >= 0 {
            scaled
        } else {
            -scaled
        };
        let cost_abs: i128 = if cost >= 0 {
            cost
        } else {
            -cost
        };
        let magnitude: i128 = scaled_abs / cost_abs;
        if (scaled < 0) != (cost < 0) {
            Some(-magnitude)
        } else {
            Some(magnitude)
        }
    }
}

/// Total expected profit over the completed pairs. (A list longer than
/// 2^59 entries cannot be held in memory.)
pub fn total_expected_pnl(completed: &Vec<CompletedArbitrage>) -> (r: i128)
    requires
        completed@.len() <= 0x800_0000_0000_0000,
    ensures
        r == total_profit_of(completed@, completed@.len() as int),
{
    let mut total: i128 = 0;
    let mut i: usize = 0;
    while i < completed.len()
        invariant
            i <= completed@.len() <= 0x800_0000_0000_0000,
            total == total_profit_of(completed@, i as int),
            -(i as int) * 0x4_0000_0000_0000_0000 <= total <= (i as int) * 0x4_0000_0000_0000_0000,
        decreases completed@.len() - i,
    {
        let p = completed[i].expected_profit();
        proof {
            assert((i + 1) * 0x4_0000_0000_0000_0000 <= 0x800_0000_0000_0001 * 0x4_0000_0000_0000_0000)
                by (nonlinear_arith)
                requires
                    i + 1 <= 0x800_0000_0000_0001,
            ;
        }
        total = total + p;
        i = i + 1;
    }
    total
}

} // verus!
