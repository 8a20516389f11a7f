//! The five-minute BTC markets listed by Polymarket's Gamma API: which
//! market is current, its slug, and reading a listing into a market.
use vstd::prelude::*;
use vstd::string::*;

use crate::adapters::{
    json_number_texts, json_string_list, lowercase, parse_json_number_texts,
    parse_json_string_list, parse_rfc3339_micros, rfc3339_instant_micros, string_views,
    to_lowercase, utc_now_micros,
};
use crate::config::{ENTRY_WINDOW_END, ENTRY_WINDOW_START, MICROS_PER_SECOND};
use crate::decimal::{decimal_text, i64_to_decimal, lemma_decimal_text_injective, parse_micros, parse_micros_spec};
use crate::text::{contains_text, text_contains};
use crate::types::{seconds_between, seconds_between_micros};

verus! {

/// Length of a market cycle, in seconds.
pub const MARKET_PERIOD_SECS: i64 = 300;

/// Start of a known market cycle (2026-03-05 15:30:00 UTC), in seconds.
pub const BASE_MARKET_TIMESTAMP: i64 = 1772724600;

/// `a / b` rounded toward zero, as Rust's integer division does (`b > 0`).
pub open spec fn trunc_div(a: int, b: int) -> int {
    if a >= 0 {
        a / b
    } else {
        -((-a) / b)
    }
}

/// The cycle start that `get_current_btc_5m_timestamp` computes from `now`
/// seconds: `now` rounded toward zero to a multiple of 300.
pub open spec fn five_minute_start(now: int) -> int {
    trunc_div(now, 300) * 300
}

/// The five-minute cycle that holds `now_secs`, counted in whole cycles from
/// the Unix epoch and rounded toward zero.
pub fn btc_5m_timestamp_at(now_secs: i64) -> (r: i64)
    ensures
        r == five_minute_start(now_secs as int),
{
    (now_secs / MARKET_PERIOD_SECS) * MARKET_PERIOD_SECS
}

/// Start (Unix seconds) of the current five-minute market cycle.
pub fn get_current_btc_5m_timestamp() -> (r: i64)
    ensures
        exists|now: int| now >= 0 && r == five_minute_start(now),
        r >= 0,
        r % 300 == 0,
{
    let now = utc_now_micros() / MICROS_PER_SECOND;
    btc_5m_timestamp_at(now)
}

/// The slug of the five-minute BTC market starting at `timestamp`.
pub open spec fn btc_5m_slug(timestamp: int) -> Seq<char> {
    "btc-updown-5m-"@ + decimal_text(timestamp)
}

/// The slug of the five-minute BTC market starting at `timestamp`:
/// `btc-updown-5m-` followed by the timestamp in base ten.
pub fn get_btc_5m_slug(timestamp: i64) -> (s: String)
    ensures
        s@ == btc_5m_slug(timestamp as int),
{
    let prefix = String::from_str("btc-updown-5m-");
    let digits = i64_to_decimal(timestamp);
    prefix.concat(digits.as_str())
}

/// A slug names one cycle: different cycle starts have different slugs.
pub proof fn lemma_slug_names_one_cycle(a: int, b: int)
    requires
        btc_5m_slug(a) == btc_5m_slug(b),
    ensures
        a == b,
{
    let p = "btc-updown-5m-"@;
    assert(decimal_text(a) =~= btc_5m_slug(a).skip(p.len() as int));
    assert(decimal_text(b) =~= btc_5m_slug(b).skip(p.len() as int));
    lemma_decimal_text_injective(a, b);
}

/// The cycle start that the market search begins from: the known cycle
/// start moved by whole cycles toward `now`, rounded toward it.
pub open spec fn market_cycle_start(now: int) -> int {
    BASE_MARKET_TIMESTAMP + trunc_div(now - BASE_MARKET_TIMESTAMP, 300) * 300
}

/// The cycle starts (Unix seconds) at which the current market is looked
/// up, in the order they are tried: the cycle of `now_secs`, the one before
/// it, and the one after it.
pub fn market_search_timestamps(now_secs: i64) -> (r: Vec<i64>)
    requires
        i64::MIN + BASE_MARKET_TIMESTAMP <= now_secs,
        market_cycle_start(now_secs as int) + 300 <= i64::MAX,
    ensures
        r@ == seq![
            market_cycle_start(now_secs as int) as i64,
            (market_cycle_start(now_secs as int) - 300) as i64,
            (market_cycle_start(now_secs as int) + 300) as i64,
        ],
{
    let cycles_passed = (now_secs - BASE_MARKET_TIMESTAMP) / MARKET_PERIOD_SECS;
    let current_timestamp = BASE_MARKET_TIMESTAMP + cycles_passed * MARKET_PERIOD_SECS;
    let mut r: Vec<i64> = Vec::new();
    r.push(current_timestamp);
    r.push(current_timestamp - MARKET_PERIOD_SECS);
    r.push(current_timestamp + MARKET_PERIOD_SECS);
    r
}

/// What the search for the current market does after one lookup.
pub enum MarketSearchStep {
    /// Stop: this is the current market.
    Found(Btc5MinMarket),
    /// Look up the candidate at this index of `market_search_timestamps`.
    TryNext(usize),
    /// Stop: no candidate gave a market.
    GiveUp,
}

/// The search's decision after looking up candidate `attempt` (an index
/// into the three cycle starts of `market_search_timestamps`): stop with
/// the market when the lookup gave a listing that reads as one, otherwise
/// go on to the next candidate, and give up after the last one.
pub fn market_search_step(attempt: usize, found: Option<Btc5MinMarket>) -> (r: MarketSearchStep)
    ensures
        found matches Some(m) ==> r == MarketSearchStep::Found(m),
        found is None && attempt < 2 ==> r == MarketSearchStep::TryNext((attempt + 1) as usize),
        found is None && attempt >= 2 ==> r is GiveUp,
{
    match found {
        Some(m) => MarketSearchStep::Found(m),
        None => if attempt < 2 {
            MarketSearchStep::TryNext(attempt + 1)
        } else {
            MarketSearchStep::GiveUp
        },
    }
}

/// A five-minute BTC market as the strategy sees it.
#[derive(Debug, Clone)]
pub struct Btc5MinMarket {
    pub market_id: String,
    pub condition_id: String,
    /// Settlement instant, microseconds since the Unix epoch.
    pub end_time: i64,
    pub up_outcome: String,
    pub down_outcome: String,
    /// Outcome prices, in millionths of a USDC.
    pub up_price: i64,
    pub down_price: i64,
}

/// `secs` seconds before settlement lies in the trading window (T-240s to T-90s).
pub open spec fn market_in_window(secs: int) -> bool {
    90 <= secs <= 240
}

impl Btc5MinMarket {
    /// Whole seconds from `now` (microseconds since the epoch) to settlement,
    /// truncated toward zero.
    pub fn seconds_to_end_at(&self, now: i64) -> (r: i64)
        ensures
            r == seconds_between(self.end_time as int, now as int),
    {
        seconds_between_micros(self.end_time, now)
    }

    /// Whole seconds from now to settlement.
    pub fn seconds_to_end(&self) -> (r: i64)
        ensures
            exists|now: int| now >= 0 && r == seconds_between(self.end_time as int, now),
    {
        self.seconds_to_end_at(utc_now_micros())
    }

    /// Whether `now` lies in the trading window before settlement.
    pub fn in_trading_window_at(&self, now: i64) -> (r: bool)
        ensures
            r == market_in_window(seconds_between(self.end_time as int, now as int)),
            r <==> self.end_time - 241 * MICROS_PER_SECOND < now <= self.end_time - 90
                * MICROS_PER_SECOND,
    {
        proof {
            lemma_window_in_clock_micros(self.end_time as int, now as int);
        }
        let secs = self.seconds_to_end_at(now);
        secs >= 90 && secs <= 240
    }

    /// Whether the present moment lies in the trading window before settlement.
    pub fn in_trading_window(&self) -> (r: bool)
        ensures
            exists|now: int|
                now >= 0 && r == market_in_window(seconds_between(self.end_time as int, now)) && (r
                    <==> self.end_time - 241 * MICROS_PER_SECOND < now <= self.end_time - 90
                    * MICROS_PER_SECOND),
    {
        self.in_trading_window_at(utc_now_micros())
    }
}

/// The fields of a Gamma API market listing that are read, each present
/// only when the listing holds it as a string.
pub struct GammaMarketFields {
    pub question: Option<String>,
    pub slug: Option<String>,
    pub id: Option<String>,
    pub condition_id: Option<String>,
    pub end_date: Option<String>,
    /// JSON array of outcome names, as text.
    pub outcomes: Option<String>,
    /// JSON array of outcome prices, as text.
    pub outcome_prices: Option<String>,
}

/// The listing is about the BTC market: its lower-cased question mentions
/// bitcoin or its slug names a five-minute BTC market.
pub open spec fn is_btc_text(question_lower: Seq<char>, slug: Seq<char>) -> bool {
    text_contains(question_lower, "bitcoin"@) || text_contains(slug, "btc-updown-5m"@)
}

/// The listing with question `question` and slug `slug` is about the BTC market.
pub open spec fn is_btc_listing(question: Seq<char>, slug: Seq<char>) -> bool {
    is_btc_text(lowercase(question), slug)
}

/// `i` is the first of the lower-cased outcome names that mentions "up".
pub open spec fn is_first_up(lowered: Seq<Seq<char>>, i: int) -> bool {
    &&& 0 <= i < lowered.len()
    &&& text_contains(lowered[i], "up"@)
    &&& forall|j: int| 0 <= j < i ==> !text_contains(#[trigger] lowered[j], "up"@)
}

/// Index of the first lower-cased outcome name that mentions "up", or -1
/// when none does.
pub open spec fn first_up_in(lowered: Seq<Seq<char>>) -> int {
    if exists|i: int| is_first_up(lowered, i) {
        choose|i: int| is_first_up(lowered, i)
    } else {
        -1
    }
}

/// The outcome names, lower-cased.
pub open spec fn lowered_names(outcomes: Seq<Seq<char>>) -> Seq<Seq<char>> {
    outcomes.map_values(|o: Seq<char>| lowercase(o))
}

/// Index of the first outcome that marks the Up side, or -1 when none does.
pub open spec fn first_up_index(outcomes: Seq<Seq<char>>) -> int {
    first_up_in(lowered_names(outcomes))
}

/// Every text reads as a price.
pub open spec fn all_prices_parse(texts: Seq<Seq<char>>) -> bool {
    forall|i: int| 0 <= i < texts.len() ==> (#[trigger] parse_micros_spec(texts[i])) is Some
}

/// The outcome names of a listing (when present and well formed).
pub open spec fn listing_outcomes(f: GammaMarketFields) -> Seq<Seq<char>> {
    json_string_list(f.outcomes->0@)->0
}

/// The outcome price texts of a listing (when present and well formed).
pub open spec fn listing_prices(f: GammaMarketFields) -> Seq<Seq<char>> {
    json_number_texts(f.outcome_prices->0@)->0
}

/// The listing describes a five-minute BTC market: every field is present,
/// it is about BTC, its end date and JSON lists read, it has exactly two
/// outcomes and two prices, and one outcome marks the Up side.
pub open spec fn gamma_market_ok(f: GammaMarketFields) -> bool {
    &&& f.question is Some
    &&& f.slug is Some
    &&& is_btc_listing(f.question->0@, f.slug->0@)
    &&& f.id is Some
    &&& f.condition_id is Some
    &&& f.end_date is Some
    &&& rfc3339_instant_micros(f.end_date->0@) is Some
    &&& f.outcomes is Some
    &&& f.outcome_prices is Some
    &&& json_string_list(f.outcomes->0@) is Some
    &&& json_number_texts(f.outcome_prices->0@) is Some
    &&& all_prices_parse(listing_prices(f))
    &&& listing_outcomes(f).len() == 2
    &&& listing_prices(f).len() == 2
    &&& first_up_index(listing_outcomes(f)) >= 0
}

/// `m` is the market that the listing `f` describes: the first outcome that
/// marks Up is the Up side, the other one the Down side.
pub open spec fn describes_market(m: Btc5MinMarket, f: GammaMarketFields) -> bool {
    let up = first_up_index(listing_outcomes(f));
    let down = 1 - up;
    &&& m.market_id == f.id->0
    &&& m.condition_id == f.condition_id->0
    &&& m.end_time == rfc3339_instant_micros(f.end_date->0@)->0
    &&& m.up_outcome@ == listing_outcomes(f)[up]
    &&& m.down_outcome@ == listing_outcomes(f)[down]
    &&& m.up_price == parse_micros_spec(listing_prices(f)[up])->0
    &&& m.down_price == parse_micros_spec(listing_prices(f)[down])->0
}

/// The parts read from a listing make a five-minute BTC market: it is about
/// BTC, it has exactly two outcomes and two prices, every price reads, and
/// one outcome mentions "up".
pub open spec fn market_parts_ok(
    question_lower: Seq<char>,
    slug: Seq<char>,
    outcomes: Seq<Seq<char>>,
    outcomes_lower: Seq<Seq<char>>,
    price_texts: Seq<Seq<char>>,
) -> bool {
    &&& is_btc_text(question_lower, slug)
    &&& outcomes.len() == 2
    &&& price_texts.len() == 2
    &&& all_prices_parse(price_texts)
    &&& first_up_in(outcomes_lower) >= 0
}

/// Every text read as a price, or nothing when one does not read.
fn parse_all_micros(texts: &Vec<String>) -> (r: Option<Vec<i64>>)
    ensures
        r is Some <==> all_prices_parse(string_views(texts@)),
        r matches Some(v) ==> v@.len() == texts@.len() && forall|i: int|
            0 <= i < v@.len() ==> Some(#[trigger] v@[i]) == parse_micros_spec(texts@[i]@),
{
    let mut out: Vec<i64> = Vec::new();
    let mut i: usize = 0;
    while i < texts.len()
        invariant
            i <= texts@.len(),
            out@.len() == i,
            forall|j: int| 0 <= j < i ==> Some(#[trigger] out@[j]) == parse_micros_spec(texts@[j]@),
        decreases texts@.len() - i,
    {
        match parse_micros(texts[i].as_str()) {
            Some(x) => out.push(x),
            None => {
                proof {
                    assert(string_views(texts@)[i as int] == texts@[i as int]@);
                }
                return None;
            },
        }
        i = i + 1;
    }
    proof {
        assert forall|j: int| 0 <= j < string_views(texts@).len() implies (#[trigger] parse_micros_spec(
            string_views(texts@)[j],
        )) is Some by {
            assert(string_views(texts@)[j] == texts@[j]@);
            assert(Some(out@[j]) == parse_micros_spec(texts@[j]@));
        }
    }
    Some(out)
}

/// Index of the first lower-cased outcome name that mentions "up".
fn position_of_up(lowered: &Vec<String>) -> (r: Option<usize>)
    ensures
        r matches Some(i) ==> i as int == first_up_in(string_views(lowered@)),
        r is None ==> first_up_in(string_views(lowered@)) == -1,
{
    let ghost outs = string_views(lowered@);
    let mut i: usize = 0;
    while i < lowered.len()
        invariant
            i <= lowered@.len(),
            outs == string_views(lowered@),
            forall|j: int| 0 <= j < i ==> !text_contains(#[trigger] outs[j], "up"@),
        decreases lowered@.len() - i,
    {
        proof {
            assert(outs[i as int] == lowered@[i as int]@);
        }
        if contains_text(lowered[i].as_str(), "up") {
            proof {
                assert(is_first_up(outs, i as int));
                let c = choose|c: int| is_first_up(outs, c);
                if c < i {
                    assert(!text_contains(outs[c], "up"@));
                }
                if i < c {
                    assert(!text_contains(outs[i as int], "up"@));
                }
            }
            return Some(i);
        }
        i = i + 1;
    }
    proof {
        if exists|c: int| is_first_up(outs, c) {
            let c = choose|c: int| is_first_up(outs, c);
            assert(!text_contains(outs[c], "up"@));
        }
    }
    None
}

/// Builds the market from what was read out of a listing: the lower-cased
/// question, the slug, the ids, the end instant, the outcome names with
/// their lower-cased forms, and the outcome price texts. Gives `None` when
/// the listing is not about BTC, does not have exactly two outcomes and two
/// prices, a price does not read, or no outcome mentions "up"; otherwise the
/// first outcome that mentions "up" is the Up side and the other one the
/// Down side.
pub fn btc_market_from_parts(
    question_lower: &str,
    slug: &str,
    market_id: &String,
    condition_id: &String,
    end_time: i64,
    outcomes: &Vec<String>,
    outcomes_lower: &Vec<String>,
    price_texts: &Vec<String>,
) -> (r: Option<Btc5MinMarket>)
    requires
        outcomes_lower@.len() == outcomes@.len(),
    ensures
        r is Some <==> market_parts_ok(
            question_lower@,
            slug@,
            string_views(outcomes@),
            string_views(outcomes_lower@),
            string_views(price_texts@),
        ),
        r matches Some(m) ==> {
            let up = first_up_in(string_views(outcomes_lower@));
            let down = 1 - up;
            &&& m.market_id == *market_id
            &&& m.condition_id == *condition_id
            &&& m.end_time == end_time
            &&& m.up_outcome@ == outcomes@[up]@
            &&& m.down_outcome@ == outcomes@[down]@
            &&& m.up_price == parse_micros_spec(price_texts@[up]@)->0
            &&& m.down_price == parse_micros_spec(price_texts@[down]@)->0
        },
{
    if !contains_text(question_lower, "bitcoin") && !contains_text(slug, "btc-updown-5m") {
        return None;
    }
    let prices = match parse_all_micros(price_texts) {
        Some(v) => v,
        None => return None,
    };
    if outcomes.len() != 2 || prices.len() != 2 {
        return None;
    }
    let up_idx = match position_of_up(outcomes_lower) {
        Some(i) => i,
        None => return None,
    };
    let down_idx: usize = 1 - up_idx;
    proof {
        assert(Some(prices@[up_idx as int]) == parse_micros_spec(price_texts@[up_idx as int]@));
        assert(Some(prices@[down_idx as int]) == parse_micros_spec(
            price_texts@[down_idx as int]@,
        ));
    }
    Some(
        Btc5MinMarket {
            market_id: market_id.clone(),
            condition_id: condition_id.clone(),
            end_time,
            up_outcome: outcomes[up_idx].clone(),
            down_outcome: outcomes[down_idx].clone(),
            up_price: prices[up_idx],
            down_price: prices[down_idx],
        },
    )
}

/// The outcome names, each lower-cased.
fn lowercase_all(names: &Vec<String>) -> (r: Vec<String>)
    ensures
        string_views(r@) == lowered_names(string_views(names@)),
{
    let mut out: Vec<String> = Vec::new();
    let mut i: usize = 0;
    while i < names.len()
        invariant
            i <= names@.len(),
            out@.len() == i,
            forall|j: int| 0 <= j < i ==> #[trigger] out@[j]@ == lowercase(names@[j]@),
        decreases names@.len() - i,
    {
        out.push(to_lowercase(names[i].as_str()));
        i = i + 1;
    }
    assert(string_views(out@) =~= lowered_names(string_views(names@)));
    out
}

/// Reads a Gamma API listing into a five-minute BTC market. Gives `None`
/// when a field is missing, the listing is not about BTC, its end date or
/// JSON lists do not read, it does not have exactly two outcomes and two
/// prices, or no outcome marks the Up side.
pub fn parse_btc_market(fields: &GammaMarketFields) -> (r: Option<Btc5MinMarket>)
    ensures
        r is Some <==> gamma_market_ok(*fields),
        r matches Some(m) ==> describes_market(m, *fields),
{
    let question = match &fields.question {
        Some(q) => to_lowercase(q.as_str()),
        None => return None,
    };
    let slug = match &fields.slug {
        Some(s) => s,
        None => return None,
    };
    let market_id = match &fields.id {
        Some(x) => x,
        None => return None,
    };
    let condition_id = match &fields.condition_id {
        Some(x) => x,
        None => return None,
    };
    let end_time = match &fields.end_date {
        Some(x) => match parse_rfc3339_micros(x.as_str()) {
            Some(t) => t,
            None => return None,
        },
        None => return None,
    };
    let outcomes_str = match &fields.outcomes {
        Some(x) => x,
        None => return None,
    };
    let outcome_prices_str = match &fields.outcome_prices {
        Some(x) => x,
        None => return None,
    };
    let outcomes = match parse_json_string_list(outcomes_str.as_str()) {
        Some(v) => v,
        None => return None,
    };
    let price_texts = match parse_json_number_texts(outcome_prices_str.as_str()) {
        Some(v) => v,
        None => return None,
    };
    let outcomes_lower = lowercase_all(&outcomes);
    proof {
        assert(listing_outcomes(*fields) == string_views(outcomes@));
        assert(listing_prices(*fields) == string_views(price_texts@));
        assert(string_views(outcomes_lower@).len() == outcomes_lower@.len());
        if 0 <= first_up_in(string_views(outcomes_lower@)) < 2 && outcomes@.len() == 2 {
            let up = first_up_in(string_views(outcomes_lower@));
            assert(string_views(outcomes@)[up] == outcomes@[up]@);
            assert(string_views(outcomes@)[1 - up] == outcomes@[1 - up]@);
            assert(string_views(price_texts@).len() == price_texts@.len());
        }
    }
    let r = btc_market_from_parts(
        question.as_str(),
        slug.as_str(),
        market_id,
        condition_id,
        end_time,
        &outcomes,
        &outcomes_lower,
        &price_texts,
    );
    proof {
        if r is Some {
            let up = first_up_in(string_views(outcomes_lower@));
            assert(string_views(price_texts@)[up] == price_texts@[up]@);
            assert(string_views(price_texts@)[1 - up] == price_texts@[1 - up]@);
        }
    }
    r
}

/// The trading window read on the clock, in microseconds since the epoch:
/// a market settling at `end_time` is in its window exactly from just after
/// 241 seconds before settlement up to and including 90 seconds before it
/// (whole seconds are counted toward zero, so 240.9 s left still counts as
/// 240).
pub proof fn lemma_window_in_clock_micros(end_time: int, now: int)
    ensures
        market_in_window(seconds_between(end_time, now)) <==> end_time - 241 * MICROS_PER_SECOND
            < now <= end_time - 90 * MICROS_PER_SECOND,
{
}

/// The window in which `Btc5MinMarket::in_trading_window` holds is the
/// strategy's entry window: T-240s to T-90s on both sides.
pub proof fn lemma_market_window_is_entry_window(secs: int)
    ensures
        market_in_window(secs) == (ENTRY_WINDOW_END <= secs <= ENTRY_WINDOW_START),
{
}

} // verus!
