//! Strategy parameters, in fixed-point millionths where they are amounts.
use vstd::prelude::*;

verus! {

/// One unit (one USDC, or a ratio of 1.0) in millionths.
pub const ONE: i64 = 1_000_000;

/// Up leg entry threshold (0.25 USDC): buy Up only at or below it.
pub const UP_PRICE_THRESHOLD: i64 = 250_000;

/// Down leg threshold (0.70 USDC).
pub const DOWN_PRICE_THRESHOLD: i64 = 700_000;

/// Ceiling on the cost of a complete Up + Down pair (0.90 USDC): the safety margin.
pub const MAX_TOTAL_COST: i64 = 900_000;

/// One-minute BTC move that triggers the first (Up) leg: a drop of 3%.
pub const BTC_1M_DROP_TRIGGER: i64 = -30_000;

/// One-minute BTC move that triggers the second (Down) leg: a bounce of 2%.
pub const BTC_BOUNCE_TRIGGER: i64 = 20_000;

/// Shortest remaining time, in seconds.
pub const MIN_TIME_REMAINING: i64 = 90;

/// Entry window opens this many seconds before settlement (T-4:00).
pub const ENTRY_WINDOW_START: i64 = 240;

/// Entry window closes this many seconds before settlement (T-1:30).
pub const ENTRY_WINDOW_END: i64 = 90;

/// Paper trade size: 100 USDC.
pub const TRADE_AMOUNT: i64 = 100_000_000;

/// Microseconds in a second.
pub const MICROS_PER_SECOND: i64 = 1_000_000;

/// Polymarket market-data websocket.
pub const POLYMARKET_WS_URL: &'static str = "wss://ws-subscriptions-clob.polymarket.com/ws";

/// SQLite database of paper trades.
pub const DB_PATH: &'static str = "paper_trades.db";

} // verus!
