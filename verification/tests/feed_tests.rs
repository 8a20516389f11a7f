use polymarket_arb::database::{total_expected_pnl, CompletedArbitrage};
use polymarket_arb::websocket::{BtcPriceClient, PolymarketWsClient};

const SEC: i64 = 1_000_000;
const T0: i64 = 1_772_724_600 * SEC;

#[test]
fn change_needs_two_samples() {
    let mut c = BtcPriceClient::new();
    assert_eq!(c.change_at(60, T0), Some(0));
    c.record_price_at(85_000_000_000, T0, T0);
    assert_eq!(c.change_at(60, T0), Some(0));
}

#[test]
fn change_is_measured_from_latest_sample_before_cutoff() {
    let mut c = BtcPriceClient::new();
    c.record_price_at(100_000_000, T0, T0);
    c.record_price_at(110_000_000, T0 + 30 * SEC, T0 + 30 * SEC);
    c.record_price_at(99_000_000, T0 + 90 * SEC, T0 + 90 * SEC);
    // one minute back from T0+90s is T0+30s: reference 110
    assert_eq!(c.change_at(60, T0 + 90 * SEC), Some(-100_000));
    // five minutes back: no sample that old, the earliest (100) is used
    assert_eq!(c.change_at(300, T0 + 90 * SEC), Some(-10_000));
    // no lookback: the latest sample itself
    assert_eq!(c.change_at(0, T0 + 90 * SEC), Some(0));
}

#[test]
fn change_rounds_toward_zero_and_refuses_zero_reference() {
    let mut c = BtcPriceClient::new();
    c.record_price_at(3, T0, T0);
    c.record_price_at(4, T0 + SEC, T0 + SEC);
    assert_eq!(c.change_at(1, T0 + SEC), Some(333_333));
    let mut d = BtcPriceClient::new();
    d.record_price_at(3, T0, T0);
    d.record_price_at(2, T0 + SEC, T0 + SEC);
    assert_eq!(d.change_at(1, T0 + SEC), Some(-333_333));
    let mut z = BtcPriceClient::new();
    z.record_price_at(0, T0, T0);
    z.record_price_at(5, T0 + SEC, T0 + SEC);
    assert_eq!(z.change_at(1, T0 + SEC), None);
}

#[test]
fn samples_older_than_ten_minutes_are_dropped() {
    let mut c = BtcPriceClient::new();
    c.record_price_at(100_000_000, T0, T0);
    c.record_price_at(200_000_000, T0 + 600 * SEC, T0 + 600 * SEC);
    // exactly ten minutes old: kept
    assert_eq!(c.change_at(600, T0 + 600 * SEC), Some(1_000_000));
    c.record_price_at(300_000_000, T0 + 601 * SEC, T0 + 601 * SEC);
    // the first sample is gone: the earliest left is 200
    assert_eq!(c.change_at(900, T0 + 601 * SEC), Some(500_000));
}

#[test]
fn live_updates_use_the_clock() {
    let mut c = BtcPriceClient::new();
    c.update_price(100_000_000);
    c.update_price(101_000_000);
    assert_eq!(c.calculate_change(3600), Some(10_000));
}

#[test]
fn websocket_client_connects() {
    let mut c = PolymarketWsClient::new();
    c.connect();
}

fn pair(up: i64, down: i64) -> CompletedArbitrage {
    CompletedArbitrage { market_id: "m".to_string(), up_cost: up, down_cost: down }
}

#[test]
fn report_arithmetic() {
    let a = pair(200_000, 600_000);
    assert_eq!(a.total_cost(), 800_000);
    assert_eq!(a.expected_profit(), 200_000);
    assert_eq!(a.profit_percent(), Some(25_000_000));
    let b = pair(300_000, 600_000);
    assert_eq!(b.profit_percent(), Some(11_111_111));
    let c = pair(600_000, 600_000);
    assert_eq!(c.expected_profit(), -200_000);
    assert_eq!(c.profit_percent(), Some(-16_666_666));
    assert_eq!(pair(0, 0).profit_percent(), None);
    assert_eq!(total_expected_pnl(&vec![a, b, c]), 100_000);
    assert_eq!(total_expected_pnl(&vec![]), 0);
}

#[test]
fn a_sample_already_stale_is_not_kept() {
    let mut c = BtcPriceClient::new();
    c.record_price_at(100_000_000, T0, T0);
    // sampled eleven minutes before the clock read that sets the cutoff
    c.record_price_at(200_000_000, T0 + 60 * SEC, T0 + 660 * SEC);
    assert_eq!(c.change_at(60, T0 + 660 * SEC), Some(0));
}
