use polymarket_arb::clob_ws::{BookMessage, ClobClient};
use polymarket_arb::decimal::{i64_to_decimal, parse_micros};
use polymarket_arb::gamma_api::{
    btc_5m_timestamp_at, btc_market_from_parts, get_btc_5m_slug, market_search_step,
    MarketSearchStep, get_current_btc_5m_timestamp, market_search_timestamps,
    parse_btc_market, GammaMarketFields, BASE_MARKET_TIMESTAMP,
};
use polymarket_arb::text::contains_text;
use polymarket_arb::types::OrderBookLevel;

#[test]
fn decimal_prices_read_into_millionths() {
    assert_eq!(parse_micros("0.25"), Some(250_000));
    assert_eq!(parse_micros("0.505"), Some(505_000));
    assert_eq!(parse_micros("-3"), Some(-3_000_000));
    assert_eq!(parse_micros("+1.5"), Some(1_500_000));
    assert_eq!(parse_micros(".5"), Some(500_000));
    assert_eq!(parse_micros("7."), Some(7_000_000));
    assert_eq!(parse_micros("0.000001"), Some(1));
    assert_eq!(parse_micros("85000"), Some(85_000_000_000));
    assert_eq!(parse_micros("9223372036854.775807"), Some(i64::MAX));
    assert_eq!(parse_micros("-9223372036854.775808"), Some(i64::MIN));
    assert_eq!(parse_micros("9223372036854.775808"), None);
    assert_eq!(parse_micros("99999999999999999999"), None);
    assert_eq!(parse_micros("0.1234567"), Some(123_457));
    assert_eq!(parse_micros("0.1234564"), Some(123_456));
    assert_eq!(parse_micros("0.0000005"), Some(1));
    assert_eq!(parse_micros("-0.0000005"), Some(-1));
    assert_eq!(parse_micros("0.00000049999"), Some(0));
    assert_eq!(parse_micros("1e-3"), Some(1_000));
    assert_eq!(parse_micros("1.5E3"), Some(1_500_000_000));
    assert_eq!(parse_micros("2.5e+1"), Some(25_000_000));
    assert_eq!(parse_micros("1e-400"), Some(0));
    assert_eq!(parse_micros("0e400"), Some(0));
    assert_eq!(parse_micros("1e400"), None);
    assert_eq!(parse_micros("1e99999999999999999999999"), None);
    assert_eq!(parse_micros("5e-99999999999999999999999"), Some(0));
    assert_eq!(parse_micros("12345678901234567890123456789e-28"), Some(1_234_568));
    assert_eq!(parse_micros("9223372036854.7758075"), None);
    assert_eq!(parse_micros("-9223372036854.7758075"), Some(i64::MIN));
    assert_eq!(parse_micros("1e"), None);
    assert_eq!(parse_micros("1e+"), None);
    assert_eq!(parse_micros("e5"), None);
    assert_eq!(parse_micros("1e5.0"), None);
    assert_eq!(parse_micros(""), None);
    assert_eq!(parse_micros("-"), None);
    assert_eq!(parse_micros("."), None);
    assert_eq!(parse_micros("1.2.3"), None);
    assert_eq!(parse_micros("abc"), None);
    assert_eq!(parse_micros(" 1"), None);
}

#[test]
fn integers_render_in_base_ten() {
    assert_eq!(i64_to_decimal(0), "0");
    assert_eq!(i64_to_decimal(7), "7");
    assert_eq!(i64_to_decimal(-5), "-5");
    assert_eq!(i64_to_decimal(1772724600), "1772724600");
    assert_eq!(i64_to_decimal(i64::MAX), i64::MAX.to_string());
    assert_eq!(i64_to_decimal(i64::MIN), i64::MIN.to_string());
}

#[test]
fn substring_search() {
    assert!(contains_text("bitcoin up or down", "bitcoin"));
    assert!(contains_text("abc", ""));
    assert!(contains_text("abc", "abc"));
    assert!(!contains_text("ab", "abc"));
    assert!(!contains_text("Bitcoin", "bitcoin"));
}

#[test]
fn slug_of_a_cycle() {
    assert_eq!(get_btc_5m_slug(1772724600), "btc-updown-5m-1772724600");
    assert_eq!(get_btc_5m_slug(-300), "btc-updown-5m--300");
}

#[test]
fn cycle_start_rounds_toward_zero() {
    assert_eq!(btc_5m_timestamp_at(1772724899), 1772724600);
    assert_eq!(btc_5m_timestamp_at(1772724900), 1772724900);
    assert_eq!(btc_5m_timestamp_at(0), 0);
    assert_eq!(btc_5m_timestamp_at(-1), 0);
    assert_eq!(btc_5m_timestamp_at(-301), -300);
}

#[test]
fn current_cycle_is_a_multiple_of_five_minutes_near_now() {
    let now = std::time::SystemTime::now()
        .duration_since(std::time::UNIX_EPOCH)
        .unwrap()
        .as_secs() as i64;
    let ts = get_current_btc_5m_timestamp();
    assert_eq!(ts % 300, 0);
    assert!(ts <= now + 1 && now - 300 <= ts);
}

#[test]
fn search_tries_current_previous_next_cycle() {
    assert_eq!(
        market_search_timestamps(BASE_MARKET_TIMESTAMP + 450),
        vec![BASE_MARKET_TIMESTAMP + 300, BASE_MARKET_TIMESTAMP, BASE_MARKET_TIMESTAMP + 600]
    );
    assert_eq!(
        market_search_timestamps(BASE_MARKET_TIMESTAMP - 450),
        vec![BASE_MARKET_TIMESTAMP - 300, BASE_MARKET_TIMESTAMP - 600, BASE_MARKET_TIMESTAMP]
    );
}

fn listing() -> GammaMarketFields {
    GammaMarketFields {
        question: Some("Bitcoin Up or Down - March 5, 6:30PM-6:35PM ET".to_string()),
        slug: Some("btc-updown-5m-1772724600".to_string()),
        id: Some("123456".to_string()),
        condition_id: Some("0xabc".to_string()),
        end_date: Some("2026-03-05T15:35:00Z".to_string()),
        outcomes: Some("[\"Up\", \"Down\"]".to_string()),
        outcome_prices: Some("[0.505, 0.495]".to_string()),
    }
}

#[test]
fn listing_reads_into_market() {
    let m = parse_btc_market(&listing()).unwrap();
    assert_eq!(m.market_id, "123456");
    assert_eq!(m.condition_id, "0xabc");
    assert_eq!(m.end_time, 1772724900 * 1_000_000);
    assert_eq!(m.up_outcome, "Up");
    assert_eq!(m.down_outcome, "Down");
    assert_eq!(m.up_price, 505_000);
    assert_eq!(m.down_price, 495_000);
    assert_eq!(m.seconds_to_end_at(1772724600 * 1_000_000), 300);
    assert!(!m.in_trading_window_at(1772724600 * 1_000_000));
    assert!(m.in_trading_window_at(1772724700 * 1_000_000));
    assert!(m.in_trading_window_at(1772724810 * 1_000_000));
    assert!(!m.in_trading_window_at(1772724811 * 1_000_000));
    // settled long ago
    assert!(m.seconds_to_end() < 0);
    assert!(!m.in_trading_window());
}

#[test]
fn listing_with_outcomes_reversed() {
    let mut f = listing();
    f.outcomes = Some("[\"DOWN\", \"UP\"]".to_string());
    f.end_date = Some("2026-03-05T10:35:00-05:00".to_string());
    let m = parse_btc_market(&f).unwrap();
    assert_eq!(m.up_outcome, "UP");
    assert_eq!(m.down_outcome, "DOWN");
    assert_eq!(m.up_price, 495_000);
    assert_eq!(m.down_price, 505_000);
    assert_eq!(m.end_time, 1772724900 * 1_000_000);
}

#[test]
fn listing_prices_round_to_millionths() {
    let mut f = listing();
    f.outcome_prices = Some("[0.1234567,0.5]".to_string());
    let m = parse_btc_market(&f).unwrap();
    assert_eq!(m.up_price, 123_457);
    assert_eq!(m.down_price, 500_000);
    f.outcome_prices = Some("[1e-7, 1]".to_string());
    let m = parse_btc_market(&f).unwrap();
    assert_eq!(m.up_price, 0);
    assert_eq!(m.down_price, 1_000_000);
}

#[test]
fn market_from_parts() {
    let outcomes = vec!["Down".to_string(), "Up".to_string()];
    let lower = vec!["down".to_string(), "up".to_string()];
    let prices = vec!["0.4".to_string(), "0.6".to_string()];
    let id = "1".to_string();
    let cond = "c".to_string();
    let m = btc_market_from_parts("bitcoin up or down", "s", &id, &cond, 7, &outcomes, &lower, &prices)
        .unwrap();
    assert_eq!(m.up_outcome, "Up");
    assert_eq!(m.down_outcome, "Down");
    assert_eq!(m.up_price, 600_000);
    assert_eq!(m.down_price, 400_000);
    assert_eq!(m.end_time, 7);
    // the lower-cased names decide which side is Up
    assert!(btc_market_from_parts("bitcoin", "s", &id, &cond, 7, &outcomes, &outcomes, &prices).is_none());
    assert!(btc_market_from_parts("ether", "eth-updown-5m-1", &id, &cond, 7, &outcomes, &lower, &prices).is_none());
    assert!(btc_market_from_parts("ether", "btc-updown-5m-1", &id, &cond, 7, &outcomes, &lower, &prices).is_some());
    let three = vec!["0.4".to_string(), "0.6".to_string(), "0".to_string()];
    assert!(btc_market_from_parts("bitcoin", "s", &id, &cond, 7, &outcomes, &lower, &three).is_none());
    let bad = vec!["0.4".to_string(), "x".to_string()];
    assert!(btc_market_from_parts("bitcoin", "s", &id, &cond, 7, &outcomes, &lower, &bad).is_none());
}

#[test]
fn ethereum_listing_is_refused() {
    let mut f = listing();
    f.question = Some("Ethereum Up or Down".to_string());
    f.slug = Some("eth-updown-5m-1772724600".to_string());
    assert!(parse_btc_market(&f).is_none());
}

#[test]
fn listing_filter_by_question_or_slug() {
    let mut f = listing();
    f.question = Some("Will it rain?".to_string());
    assert!(parse_btc_market(&f).is_some());
    f.slug = Some("rain-tomorrow".to_string());
    assert!(parse_btc_market(&f).is_none());
    f.question = Some("BITCOIN above 90k?".to_string());
    assert!(parse_btc_market(&f).is_some());
}

#[test]
fn incomplete_or_malformed_listings_are_refused() {
    let mut f = listing();
    f.id = None;
    assert!(parse_btc_market(&f).is_none());
    let mut f = listing();
    f.question = None;
    assert!(parse_btc_market(&f).is_none());
    let mut f = listing();
    f.end_date = Some("tomorrow".to_string());
    assert!(parse_btc_market(&f).is_none());
    let mut f = listing();
    f.outcomes = Some("[\"Up\", \"Down\", \"Void\"]".to_string());
    assert!(parse_btc_market(&f).is_none());
    let mut f = listing();
    f.outcome_prices = Some("[0.5]".to_string());
    assert!(parse_btc_market(&f).is_none());
    let mut f = listing();
    f.outcome_prices = Some("[1e400, 0.5]".to_string());
    assert!(parse_btc_market(&f).is_none());
    let mut f = listing();
    f.outcome_prices = Some("[\"0.5\", \"0.5\"]".to_string());
    assert!(parse_btc_market(&f).is_none());
    let mut f = listing();
    f.outcomes = Some("[\"Yes\", \"No\"]".to_string());
    assert!(parse_btc_market(&f).is_none());
    let mut f = listing();
    f.outcomes = Some("not json".to_string());
    assert!(parse_btc_market(&f).is_none());
}

fn level(price: &str) -> OrderBookLevel {
    OrderBookLevel { price: price.to_string(), size: "100".to_string() }
}

fn book(event: &str, asset: Option<&str>, bids: Option<Vec<&str>>, asks: Option<Vec<&str>>) -> BookMessage {
    BookMessage {
        event_type: event.to_string(),
        asset_id: asset.map(|a| a.to_string()),
        bids: bids.map(|v| v.into_iter().map(level).collect()),
        asks: asks.map(|v| v.into_iter().map(level).collect()),
    }
}

#[test]
fn book_updates_set_best_bid_and_ask() {
    let mut c = ClobClient::new();
    assert_eq!(c.get_price("up-token"), None);
    c.handle_book_message(book("book", Some("up-token"), Some(vec!["0.48", "0.47"]), Some(vec!["0.52", "0.53"])));
    assert_eq!(c.get_price("up-token"), Some((480_000, 520_000)));
    assert_eq!(c.get_price("down-token"), None);
    c.handle_book_message(book("book", Some("down-token"), Some(vec!["0.40"]), Some(vec!["0.45"])));
    c.handle_book_message(book("book", Some("up-token"), Some(vec!["0.49"]), Some(vec!["0.51"])));
    assert_eq!(c.get_price("up-token"), Some((490_000, 510_000)));
    assert_eq!(c.get_price("down-token"), Some((400_000, 450_000)));
}

#[test]
fn book_keeps_highest_bid_and_lowest_ask() {
    let mut c = ClobClient::new();
    c.handle_book_message(book("book", Some("A"), Some(vec!["0.40", "0.48"]), Some(vec!["0.55", "0.52"])));
    assert_eq!(c.get_price("A"), Some((480_000, 520_000)));
    // a first level that does not read leaves the table as it is
    c.handle_book_message(book("book", Some("A"), Some(vec!["x", "0.41"]), Some(vec!["0.60"])));
    assert_eq!(c.get_price("A"), Some((480_000, 520_000)));
    c.handle_book_message(book("book", Some("A"), Some(vec!["0.41"]), Some(vec!["?", "0.60"])));
    assert_eq!(c.get_price("A"), Some((480_000, 520_000)));
    // later levels that do not read are passed over
    c.handle_book_message(book("book", Some("A"), Some(vec!["0.41", "x", "0.45"]), Some(vec!["0.60", "?", "0.58"])));
    assert_eq!(c.get_price("A"), Some((450_000, 580_000)));
}

#[test]
fn other_book_messages_are_ignored() {
    let mut c = ClobClient::new();
    c.handle_book_message(book("price_change", Some("t"), Some(vec!["0.4"]), Some(vec!["0.5"])));
    c.handle_book_message(book("book", None, Some(vec!["0.4"]), Some(vec!["0.5"])));
    c.handle_book_message(book("book", Some("t"), Some(vec![]), Some(vec!["0.5"])));
    c.handle_book_message(book("book", Some("t"), Some(vec!["0.4"]), None));
    c.handle_book_message(book("book", Some("t"), Some(vec!["x"]), Some(vec!["0.5"])));
    c.handle_book_message(book("book", Some("t"), Some(vec!["0.4"]), Some(vec!["y", "z"])));
    assert_eq!(c.get_price("t"), None);
}

#[test]
fn neighbouring_cycles_have_distinct_slugs() {
    let a = get_btc_5m_slug(1772724600);
    let b = get_btc_5m_slug(1772724900);
    let c = get_btc_5m_slug(-1772724600);
    assert_ne!(a, b);
    assert_ne!(a, c);
}

#[test]
fn market_search_stops_at_first_market_or_after_three_tries() {
    let m = parse_btc_market(&listing()).unwrap();
    match market_search_step(1, Some(m)) {
        MarketSearchStep::Found(found) => assert_eq!(found.market_id, "123456"),
        _ => panic!("a market ends the search"),
    }
    assert!(matches!(market_search_step(0, None), MarketSearchStep::TryNext(1)));
    assert!(matches!(market_search_step(1, None), MarketSearchStep::TryNext(2)));
    assert!(matches!(market_search_step(2, None), MarketSearchStep::GiveUp));
}
