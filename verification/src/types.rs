//! Market snapshots, trades and positions.
use vstd::prelude::*;
use vstd::string::*;

verus! {

/// Which outcome of a market a trade buys.
#[derive(Debug, Clone, Copy, PartialEq, Eq, Structural)]
pub enum TradeSide {
    Up,
    Down,
}

/// Whole seconds from `start` to `end` (both in microseconds), truncated
/// toward zero as a time difference's whole-second count is.
pub open spec fn seconds_between(end: int, start: int) -> int {
    let d = end - start;
    if d >= 0 {
        d / 1_000_000
    } else {
        -((-d) / 1_000_000)
    }
}

/// Whole seconds from `start` to `end`, truncated toward zero.
pub fn seconds_between_micros(end: i64, start: i64) -> (r: i64)
    ensures
        r == seconds_between(end as int, start as int),
{
    let d: i128 = end as i128 - start as i128;
    let q: i128 = d / 1_000_000;
    proof {
        assert(-18446744073709551616 <= d <= 18446744073709551616);
    }
    q as i64
}

} // verus!

verus! {

/// A snapshot of one market together with the BTC feed.
#[derive(Debug, Clone)]
pub struct MarketState {
    pub market_id: String,
    /// Settlement instant, microseconds since the Unix epoch.
    pub end_time: i64,
    /// Last Up / Down prices and best asks, in millionths of a USDC.
    pub up_price: i64,
    pub down_price: i64,
    pub up_ask: i64,
    pub down_ask: i64,
    /// BTC price in millionths of a USD.
    pub btc_price: i64,
    /// BTC moves over one and five minutes, in millionths (-0.035 is -35_000).
    pub btc_change_1m: i64,
    pub btc_change_5m: i64,
    /// Instant of the snapshot, microseconds since the Unix epoch.
    pub timestamp: i64,
}

impl MarketState {
    /// Whole seconds from the snapshot to settlement, truncated toward zero.
    pub open spec fn spec_time_to_end(&self) -> int {
        seconds_between(self.end_time as int, self.timestamp as int)
    }

    /// Whole seconds from the snapshot to settlement.
    pub fn time_to_end(&self) -> (r: i64)
        ensures
            r == self.spec_time_to_end(),
    {
        seconds_between_micros(self.end_time, self.timestamp)
    }
}

/// A paper trade.
#[derive(Debug)]
pub struct Trade {
    pub id: String,
    /// When the trade was taken, microseconds since the Unix epoch.
    pub timestamp: i64,
    pub market_id: String,
    pub side: TradeSide,
    /// Price paid per share, in millionths of a USDC.
    pub price: i64,
    /// Amount traded, in millionths of a USDC.
    pub amount: i64,
    /// BTC price at entry, in millionths of a USD.
    pub btc_price_at_entry: i64,
    /// One-minute BTC move at entry, in millionths.
    pub btc_change_1m: i64,
    /// Seconds to settlement at entry.
    pub time_to_end: i64,
}

impl Clone for Trade {
    fn clone(&self) -> (r: Self)
        ensures
            r == *self,
    {
        Trade {
            id: self.id.clone(),
            timestamp: self.timestamp,
            market_id: self.market_id.clone(),
            side: self.side,
            price: self.price,
            amount: self.amount,
            btc_price_at_entry: self.btc_price_at_entry,
            btc_change_1m: self.btc_change_1m,
            time_to_end: self.time_to_end,
        }
    }
}

/// The legs held in one market.
#[derive(Debug)]
pub struct Position {
    pub market_id: String,
    pub up_entry: Option<Trade>,
    pub down_entry: Option<Trade>,
}

/// Cost of a complete pair: the sum of both legs' prices, when both are held.
pub open spec fn spec_total_cost(p: Position) -> Option<int> {
    match (p.up_entry, p.down_entry) {
        (Some(up), Some(down)) => Some(up.price + down.price),
        _ => None,
    }
}

impl Position {
    /// A position in `market_id` with no legs yet.
    pub fn new(market_id: String) -> (p: Self)
        ensures
            p.market_id == market_id,
            p.up_entry is None,
            p.down_entry is None,
    {
        Position { market_id, up_entry: None, down_entry: None }
    }

    /// Whether both legs are held.
    pub fn is_complete(&self) -> (r: bool)
        ensures
            r == (self.up_entry is Some && self.down_entry is Some),
    {
        self.up_entry.is_some() && self.down_entry.is_some()
    }

    /// Sum of the two legs' prices, when both are held.
    pub fn total_cost(&self) -> (r: Option<i128>)
        ensures
            r matches Some(c) ==> spec_total_cost(*self) == Some(c as int),
            r is None ==> spec_total_cost(*self) is None,
    {
        match (&self.up_entry, &self.down_entry) {
            (Some(up), Some(down)) => Some(up.price as i128 + down.price as i128),
            _ => None,
        }
    }
}

/// A message of the Polymarket market channel.
#[derive(Debug)]
pub struct WsMessage {
    pub event_type: String,
    pub market: Option<String>,
    pub asset_id: Option<String>,
    pub bids: Option<Vec<OrderBookLevel>>,
    pub asks: Option<Vec<OrderBookLevel>>,
    /// Trade price, in millionths of a USDC.
    pub price: Option<i64>,
    pub timestamp: Option<String>,
}

/// One level of an order book, as the feed sends it: decimal text.
#[derive(Debug)]
pub struct OrderBookLevel {
    pub price: String,
    pub size: String,
}

/// A BTC price tick.
#[derive(Debug)]
pub struct BtcPriceUpdate {
    pub symbol: String,
    /// Price in millionths of a USD.
    pub price: i64,
    pub timestamp: u64,
}

} // verus!

verus! {

/// The label a side is shown and stored under.
pub open spec fn side_label(side: TradeSide) -> Seq<char> {
    match side {
        TradeSide::Up => "UP"@,
        TradeSide::Down => "DOWN"@,
    }
}

impl TradeSide {
    /// The label of the side: `"UP"` or `"DOWN"`.
    pub fn to_string(&self) -> (s: String)
        ensures
            s@ == side_label(*self),
    {
        match self {
            TradeSide::Up => {
                let s = String::from_str("UP");
                proof {
                    reveal_strlit("UP");
                }
                s
            },
            TradeSide::Down => {
                let s = String::from_str("DOWN");
                proof {
                    reveal_strlit("DOWN");
                }
                s
            },
        }
    }
}

} // verus!
