//! Decision logic of a paper-trading monitor for Polymarket's five-minute
//! BTC "Up or Down" markets.
//!
//! Prices, costs and BTC moves are held as fixed-point integers in
//! millionths (a share price of 0.25 USDC is `250_000`, a BTC move of -3% is
//! `-30_000`); instants are microseconds since the Unix epoch.
pub mod adapters;
pub mod clob_ws;
pub mod config;
pub mod database;
pub mod decimal;
pub mod gamma_api;
pub mod keyed;
pub mod strategy;
pub mod text;
pub mod types;
pub mod websocket;
