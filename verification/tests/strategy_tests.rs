use polymarket_arb::config::{MAX_TOTAL_COST, TRADE_AMOUNT};
use polymarket_arb::strategy::StrategyEngine;
use polymarket_arb::types::{MarketState, Position, Trade, TradeSide};

const SEC: i64 = 1_000_000;
const NOW: i64 = 1_772_724_600 * SEC;

fn state(market: &str, secs_to_end: i64, up_ask: i64, down_ask: i64, btc_change_1m: i64) -> MarketState {
    MarketState {
        market_id: market.to_string(),
        end_time: NOW + secs_to_end * SEC,
        up_price: up_ask - 20_000,
        down_price: down_ask + 10_000,
        up_ask,
        down_ask,
        btc_price: 85_000_000_000,
        btc_change_1m,
        btc_change_5m: -60_000,
        timestamp: NOW,
    }
}

fn is_trade_id(id: &str) -> bool {
    let b = id.as_bytes();
    b.len() == 36
        && b[8] == b'-'
        && b[13] == b'-'
        && b[18] == b'-'
        && b[23] == b'-'
        && b[14] == b'4'
        && matches!(b[19], b'8' | b'9' | b'a' | b'b')
        && b.iter().enumerate().all(|(i, c)| {
            [8, 13, 18, 23].contains(&i) || c.is_ascii_digit() || (b'a'..=b'f').contains(c)
        })
}

#[test]
fn simulation_scenarios_give_up_then_down_then_nothing() {
    let mut engine = StrategyEngine::new();

    // panic drop: Up at 0.20 with BTC -3.5% three minutes before settlement
    let s1 = state("btc-updown-5m-test1", 180, 200_000, 620_000, -35_000);
    let t1 = engine.process_market_update(&s1);
    assert_eq!(t1.len(), 1);
    assert_eq!(t1[0].side, TradeSide::Up);
    assert_eq!(t1[0].price, 200_000);
    assert_eq!(t1[0].amount, TRADE_AMOUNT);
    assert_eq!(t1[0].market_id, "btc-updown-5m-test1");
    assert_eq!(t1[0].time_to_end, 180);
    assert_eq!(t1[0].btc_change_1m, -35_000);
    assert_eq!(t1[0].btc_price_at_entry, 85_000_000_000);
    assert!(is_trade_id(&t1[0].id));
    assert_eq!(engine.active_position_count(), 1);

    // bounce: Down at 0.60, pair cost 0.80
    let s2 = MarketState {
        up_ask: 270_000,
        ..state("btc-updown-5m-test1", 120, 270_000, 600_000, 25_000)
    };
    let t2 = engine.process_market_update(&s2);
    assert_eq!(t2.len(), 1);
    assert_eq!(t2[0].side, TradeSide::Down);
    assert_eq!(t2[0].price, 600_000);
    assert_eq!(t2[0].time_to_end, 120);
    assert!(t1[0].price + t2[0].price <= MAX_TOTAL_COST);
    assert_ne!(t1[0].id, t2[0].id);

    // no signal in another market
    let s3 = state("btc-updown-5m-test2", 200, 470_000, 530_000, -10_000);
    let t3 = engine.process_market_update(&s3);
    assert!(t3.is_empty());
    assert_eq!(engine.active_position_count(), 1);
}

#[test]
fn complete_position_takes_no_further_trade() {
    let mut engine = StrategyEngine::new();
    assert_eq!(engine.process_market_update(&state("m", 200, 200_000, 600_000, -40_000)).len(), 1);
    assert_eq!(engine.process_market_update(&state("m", 150, 200_000, 600_000, 30_000)).len(), 1);
    assert!(engine.process_market_update(&state("m", 150, 200_000, 600_000, 30_000)).is_empty());
    assert!(engine.process_market_update(&state("m", 150, 200_000, 600_000, -40_000)).is_empty());
    assert_eq!(engine.active_position_count(), 1);
}

#[test]
fn up_leg_is_not_bought_twice() {
    let mut engine = StrategyEngine::new();
    assert_eq!(engine.process_market_update(&state("m", 200, 200_000, 800_000, -40_000)).len(), 1);
    // the drop repeats but the market already holds its Up leg; Down is too dear
    assert!(engine.process_market_update(&state("m", 190, 200_000, 800_000, -40_000)).is_empty());
}

#[test]
fn entry_window_bounds() {
    let engine = StrategyEngine::new();
    assert!(engine.check_up_entry(&state("m", 240, 200_000, 0, -40_000)).is_some());
    assert!(engine.check_up_entry(&state("m", 90, 200_000, 0, -40_000)).is_some());
    assert!(engine.check_up_entry(&state("m", 241, 200_000, 0, -40_000)).is_none());
    assert!(engine.check_up_entry(&state("m", 89, 200_000, 0, -40_000)).is_none());
    assert!(engine.check_down_entry(&state("m", 241, 0, 600_000, 30_000), 200_000).is_none());
    assert!(engine.check_down_entry(&state("m", 90, 0, 600_000, 30_000), 200_000).is_some());
}

#[test]
fn up_entry_thresholds() {
    let engine = StrategyEngine::new();
    assert!(engine.check_up_entry(&state("m", 200, 250_000, 0, -30_000)).is_some());
    assert!(engine.check_up_entry(&state("m", 200, 250_001, 0, -30_000)).is_none());
    assert!(engine.check_up_entry(&state("m", 200, 250_000, 0, -29_999)).is_none());
}

#[test]
fn down_entry_thresholds() {
    let engine = StrategyEngine::new();
    let t = engine.check_down_entry(&state("m", 200, 0, 650_000, 20_000), 250_000).unwrap();
    assert_eq!(t.side, TradeSide::Down);
    assert_eq!(t.price, 650_000);
    assert!(engine.check_down_entry(&state("m", 200, 0, 650_001, 20_000), 250_000).is_none());
    assert!(engine.check_down_entry(&state("m", 200, 0, 650_000, 19_999), 250_000).is_none());
    // the Down leg is bought only below the Down threshold (0.70)
    assert!(engine.check_down_entry(&state("m", 120, 0, 750_000, 25_000), 100_000).is_none());
    assert!(engine.check_down_entry(&state("m", 120, 0, 700_000, 25_000), 100_000).is_none());
    assert!(engine.check_down_entry(&state("m", 120, 0, 699_999, 25_000), 100_000).is_some());
}

#[test]
fn trade_carries_the_current_time() {
    let engine = StrategyEngine::new();
    let before = std::time::SystemTime::now()
        .duration_since(std::time::UNIX_EPOCH)
        .unwrap()
        .as_micros() as i64;
    let t = engine.check_up_entry(&state("m", 200, 100_000, 0, -50_000)).unwrap();
    let after = std::time::SystemTime::now()
        .duration_since(std::time::UNIX_EPOCH)
        .unwrap()
        .as_micros() as i64;
    assert!(before <= t.timestamp && t.timestamp <= after);
    assert_ne!(t.timestamp, NOW);
}

#[test]
fn cleanup_drops_only_settled_markets() {
    let mut engine = StrategyEngine::new();
    for m in ["a", "b", "c"] {
        assert_eq!(engine.process_market_update(&state(m, 200, 200_000, 600_000, -40_000)).len(), 1);
    }
    assert_eq!(engine.active_position_count(), 3);
    assert!(is_trade_id(&engine.check_up_entry(&state("x", 200, 200_000, 0, -40_000)).unwrap().id));
    engine.cleanup_settled_positions(&["b".to_string(), "zzz".to_string(), "b".to_string()]);
    assert_eq!(engine.active_position_count(), 2);
    // "b" is free again: a new Up entry can be taken there, not in "a"
    assert_eq!(engine.process_market_update(&state("b", 200, 200_000, 800_000, -40_000)).len(), 1);
    assert!(engine.process_market_update(&state("a", 200, 200_000, 800_000, -40_000)).is_empty());
    engine.cleanup_settled_positions(&["a".to_string(), "b".to_string(), "c".to_string()]);
    assert_eq!(engine.active_position_count(), 0);
}

#[test]
fn time_to_end_truncates_toward_zero() {
    let mut s = state("m", 0, 0, 0, 0);
    s.end_time = NOW + 1_500_000;
    assert_eq!(s.time_to_end(), 1);
    s.end_time = NOW - 1_500_000;
    assert_eq!(s.time_to_end(), -1);
    s.end_time = NOW + 179_999_999;
    assert_eq!(s.time_to_end(), 179);
    s.end_time = i64::MAX;
    s.timestamp = i64::MIN;
    assert_eq!(s.time_to_end(), 18_446_744_073_709);
}

fn trade(side: TradeSide, price: i64) -> Trade {
    Trade {
        id: "00000000-0000-4000-8000-000000000000".to_string(),
        timestamp: NOW,
        market_id: "m".to_string(),
        side,
        price,
        amount: TRADE_AMOUNT,
        btc_price_at_entry: 1,
        btc_change_1m: 0,
        time_to_end: 100,
    }
}

#[test]
fn position_cost_and_completeness() {
    let mut p = Position::new("m".to_string());
    assert!(!p.is_complete());
    assert_eq!(p.total_cost(), None);
    p.up_entry = Some(trade(TradeSide::Up, 200_000));
    assert!(!p.is_complete());
    assert_eq!(p.total_cost(), None);
    p.down_entry = Some(trade(TradeSide::Down, 600_000));
    assert!(p.is_complete());
    assert_eq!(p.total_cost(), Some(800_000));
}

#[test]
fn trade_side_labels() {
    assert_eq!(TradeSide::Up.to_string(), "UP");
    assert_eq!(TradeSide::Down.to_string(), "DOWN");
}

#[test]
fn trade_clone_keeps_every_field() {
    let t = trade(TradeSide::Down, 123);
    let c = t.clone();
    assert_eq!(c.id, t.id);
    assert_eq!(c.price, 123);
    assert_eq!(c.side, TradeSide::Down);
    assert_eq!(c.market_id, "m");
}
