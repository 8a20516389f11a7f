//! The two-leg entry strategy: buy Up on a panic drop inside the entry
//! window, then buy Down on the bounce while the pair still costs at most
//! `MAX_TOTAL_COST`.
use vstd::prelude::*;

use crate::adapters::{is_uuid_v4_text, new_trade_id, utc_now_micros};
use crate::config::{
    BTC_1M_DROP_TRIGGER, BTC_BOUNCE_TRIGGER, DOWN_PRICE_THRESHOLD, ENTRY_WINDOW_END, ENTRY_WINDOW_START, MAX_TOTAL_COST,
    ONE, TRADE_AMOUNT, UP_PRICE_THRESHOLD,
};
use crate::keyed::{
    keyed_map, keys_of, lemma_keyed_at, lemma_keyed_contains, lemma_keyed_len, lemma_keyed_push,
    lemma_keyed_remove, lemma_keyed_update,
};
use crate::types::{spec_total_cost, MarketState, Position, Trade, TradeSide};

verus! {

/// `t` seconds before settlement lies in the entry window (T-4:00 to T-1:30).
pub open spec fn in_entry_window(t: int) -> bool {
    ENTRY_WINDOW_END <= t <= ENTRY_WINDOW_START
}

/// The state calls for the first (Up) leg: inside the window, Up's ask at
/// or below the threshold, and BTC down at least the trigger over a minute.
pub open spec fn up_entry_signal(state: MarketState) -> bool {
    &&& in_entry_window(state.spec_time_to_end())
    &&& state.up_ask <= UP_PRICE_THRESHOLD
    &&& state.btc_change_1m <= BTC_1M_DROP_TRIGGER
}

/// The state calls for the second (Down) leg after an Up entry at
/// `up_entry_price`: inside the window, Down's ask below the Down threshold,
/// the pair's cost within the ceiling, and BTC up at least the bounce
/// trigger over a minute.
pub open spec fn down_entry_signal(state: MarketState, up_entry_price: int) -> bool {
    &&& in_entry_window(state.spec_time_to_end())
    &&& state.down_ask < DOWN_PRICE_THRESHOLD
    &&& up_entry_price + state.down_ask <= MAX_TOTAL_COST
    &&& state.btc_change_1m >= BTC_BOUNCE_TRIGGER
}

/// The shape of a trade id: a version-4 UUID in its hyphenated form, see
/// `is_uuid_v4_text`.
pub open spec fn is_trade_id(id: Seq<char>) -> bool {
    is_uuid_v4_text(id)
}

/// `t` is the trade taken on `side` at `price` from `state`: everything but
/// its random id and the instant it was taken is fixed by the state.
pub open spec fn is_entry_trade(t: Trade, state: MarketState, side: TradeSide, price: int) -> bool {
    &&& is_trade_id(t.id@)
    &&& t.timestamp >= 0
    &&& t.market_id == state.market_id
    &&& t.side == side
    &&& t.price == price
    &&& t.amount == TRADE_AMOUNT
    &&& t.btc_price_at_entry == state.btc_price
    &&& t.btc_change_1m == state.btc_change_1m
    &&& t.time_to_end == state.spec_time_to_end()
}

/// What every held position satisfies: it was opened by an Up entry taken in
/// the window on a drop; a Down entry, if any, was taken in the window on a
/// bounce at an ask below `DOWN_PRICE_THRESHOLD`, and the pair costs at most
/// `MAX_TOTAL_COST`.
pub open spec fn position_invariant(p: Position) -> bool {
    match p.up_entry {
        Some(up) => {
            &&& up.side == TradeSide::Up
            &&& up.market_id@ == p.market_id@
            &&& up.price <= UP_PRICE_THRESHOLD
            &&& up.btc_change_1m <= BTC_1M_DROP_TRIGGER
            &&& in_entry_window(up.time_to_end as int)
            &&& match p.down_entry {
                Some(down) => {
                    &&& down.side == TradeSide::Down
                    &&& down.market_id@ == p.market_id@
                    &&& down.price < DOWN_PRICE_THRESHOLD
                    &&& up.price + down.price <= MAX_TOTAL_COST
                    &&& down.btc_change_1m >= BTC_BOUNCE_TRIGGER
                    &&& in_entry_window(down.time_to_end as int)
                },
                None => true,
            }
        },
        None => false,
    }
}

/// The key of a position: its market id.
pub open spec fn position_key() -> spec_fn(Position) -> Seq<char> {
    |p: Position| p.market_id@
}

/// A position is held as itself.
pub open spec fn position_value() -> spec_fn(Position) -> Position {
    |p: Position| p
}

/// The market ids of a list of positions, in order.
pub open spec fn market_keys(s: Seq<Position>) -> Seq<Seq<char>> {
    keys_of(s, position_key())
}

/// The positions of a list, keyed by market id.
pub open spec fn positions_by_market(s: Seq<Position>) -> Map<Seq<char>, Position> {
    keyed_map(s, position_key(), position_value())
}

/// Holds the open positions, at most one per market.
pub struct StrategyEngine {
    positions: Vec<Position>,
}

impl View for StrategyEngine {
    type V = Map<Seq<char>, Position>;

    closed spec fn view(&self) -> Map<Seq<char>, Position> {
        positions_by_market(self.positions@)
    }
}

impl StrategyEngine {
    /// Well-formedness: one position per market id, each satisfying
    /// `position_invariant`.
    pub closed spec fn wf(&self) -> bool {
        &&& market_keys(self.positions@).no_duplicates()
        &&& forall|i: int|
            0 <= i < self.positions@.len() ==> position_invariant(#[trigger] self.positions@[i])
    }

    /// An engine holding no position.
    pub fn new() -> (e: Self)
        ensures
            e.wf(),
            e@ == Map::<Seq<char>, Position>::empty(),
            e@.dom().finite(),
            e@.len() == 0,
    {
        let e = StrategyEngine { positions: Vec::new() };
        assert(e@ =~= Map::<Seq<char>, Position>::empty());
        e
    }

    /// Whether `time_to_end` seconds before settlement lies in the entry window.
    fn in_trading_window(&self, time_to_end: i64) -> (r: bool)
        ensures
            r == in_entry_window(time_to_end as int),
    {
        time_to_end <= ENTRY_WINDOW_START && time_to_end >= ENTRY_WINDOW_END
    }

    /// The Up trade that `state` calls for, if it calls for one.
    pub fn check_up_entry(&self, state: &MarketState) -> (r: Option<Trade>)
        ensures
            r is Some <==> {
                &&& ENTRY_WINDOW_END <= state.spec_time_to_end() <= ENTRY_WINDOW_START
                &&& state.up_ask <= UP_PRICE_THRESHOLD
                &&& state.btc_change_1m <= BTC_1M_DROP_TRIGGER
            },
            r is Some <==> up_entry_signal(*state),
            r matches Some(t) ==> is_entry_trade(t, *state, TradeSide::Up, state.up_ask as int),
    {
        let time_to_end = state.time_to_end();
        if !self.in_trading_window(time_to_end) {
            return None;
        }
        if state.up_ask > UP_PRICE_THRESHOLD {
            return None;
        }
        if state.btc_change_1m > BTC_1M_DROP_TRIGGER {
            return None;
        }
        Some(
            Trade {
                id: new_trade_id(),
                timestamp: utc_now_micros(),
                market_id: state.market_id.clone(),
                side: TradeSide::Up,
                price: state.up_ask,
                amount: TRADE_AMOUNT,
                btc_price_at_entry: state.btc_price,
                btc_change_1m: state.btc_change_1m,
                time_to_end,
            },
        )
    }

    /// The Down trade that `state` calls for after an Up entry at
    /// `up_entry_price`, if it calls for one.
    pub fn check_down_entry(&self, state: &MarketState, up_entry_price: i64) -> (r: Option<Trade>)
        ensures
            r is Some <==> {
                &&& ENTRY_WINDOW_END <= state.spec_time_to_end() <= ENTRY_WINDOW_START
                &&& state.down_ask < DOWN_PRICE_THRESHOLD
                &&& up_entry_price + state.down_ask <= MAX_TOTAL_COST
                &&& state.btc_change_1m >= BTC_BOUNCE_TRIGGER
            },
            r is Some <==> down_entry_signal(*state, up_entry_price as int),
            r matches Some(t) ==> is_entry_trade(
                t,
                *state,
                TradeSide::Down,
                state.down_ask as int,
            ),
    {
        let time_to_end = state.time_to_end();
        if !self.in_trading_window(time_to_end) {
            return None;
        }
        if state.down_ask >= DOWN_PRICE_THRESHOLD {
            return None;
        }
        let total_cost: i128 = up_entry_price as i128 + state.down_ask as i128;
        if total_cost > MAX_TOTAL_COST as i128 {
            return None;
        }
        if state.btc_change_1m < BTC_BOUNCE_TRIGGER {
            return None;
        }
        Some(
            Trade {
                id: new_trade_id(),
                timestamp: utc_now_micros(),
                market_id: state.market_id.clone(),
                side: TradeSide::Down,
                price: state.down_ask,
                amount: TRADE_AMOUNT,
                btc_price_at_entry: state.btc_price,
                btc_change_1m: state.btc_change_1m,
                time_to_end,
            },
        )
    }

    /// Index of the position held in `market_id`, if any.
    fn find_position(&self, market_id: &String) -> (r: Option<usize>)
        requires
            self.wf(),
        ensures
            r matches Some(i) ==> i < self.positions@.len() && self.positions@[i as int].market_id@
                == market_id@,
            r is None <==> !self@.contains_key(market_id@),
    {
        let n = self.positions.len();
        let mut i: usize = 0;
        while i < n
            invariant
                n == self.positions@.len(),
                i <= n,
                self.wf(),
                forall|j: int| 0 <= j < i ==> self.positions@[j].market_id@ != market_id@,
            decreases n - i,
        {
            if self.positions[i].market_id == *market_id {
                proof {
                    lemma_keyed_at(self.positions@, position_key(), position_value(), i as int);
                }
                return Some(i);
            }
            i = i + 1;
        }
        proof {
            lemma_keyed_contains(self.positions@, position_key(), position_value(), market_id@);
        }
        None
    }

    /// Feeds one market snapshot to the strategy and returns the trades it
    /// takes: an Up entry in a market with no position, or a Down entry in
    /// a market holding only its Up leg; nothing otherwise.
    pub fn process_market_update(&mut self, state: &MarketState) -> (trades: Vec<Trade>)
        requires
            old(self).wf(),
        ensures
            final(self).wf(),
            final(self)@.dom().finite(),
            final(self)@.len() == old(self)@.len() + (if !old(self)@.contains_key(state.market_id@)
                && trades@.len() == 1 {
                1int
            } else {
                0int
            }),
            !old(self)@.contains_key(state.market_id@) ==> if up_entry_signal(*state) {
                &&& trades@.len() == 1
                &&& is_entry_trade(trades@[0], *state, TradeSide::Up, state.up_ask as int)
                &&& final(self)@ == old(self)@.insert(
                    state.market_id@,
                    (Position {
                        market_id: state.market_id,
                        up_entry: Some(trades@[0]),
                        down_entry: None,
                    }),
                )
            } else {
                trades@.len() == 0 && final(self)@ == old(self)@
            },
            old(self)@.contains_key(state.market_id@) ==> {
                let p = old(self)@[state.market_id@];
                if p.up_entry is Some && p.down_entry is None && down_entry_signal(
                    *state,
                    p.up_entry->0.price as int,
                ) {
                    &&& trades@.len() == 1
                    &&& is_entry_trade(trades@[0], *state, TradeSide::Down, state.down_ask as int)
                    &&& final(self)@ == old(self)@.insert(
                        state.market_id@,
                        (Position { down_entry: Some(trades@[0]), ..p }),
                    )
                } else {
                    trades@.len() == 0 && final(self)@ == old(self)@
                }
            },
    {
        let mut trades: Vec<Trade> = Vec::new();
        let market_id = &state.market_id;
        match self.find_position(market_id) {
            None => {
                if let Some(trade) = self.check_up_entry(state) {
                    let mut position = Position::new(market_id.clone());
                    position.up_entry = Some(trade.clone());
                    proof {
                        lemma_keyed_push(self.positions@, position_key(), position_value(), position);
                    }
                    self.positions.push(position);
                    trades.push(trade);
                }
            },
            Some(i) => {
                proof {
                    lemma_keyed_at(self.positions@, position_key(), position_value(), i as int);
                }
                let up_entry_price: Option<i64> = match &self.positions[i].up_entry {
                    Some(t) => Some(t.price),
                    None => None,
                };
                let has_down = self.positions[i].down_entry.is_some();
                if let Some(up_price) = up_entry_price {
                    if !has_down {
                        if let Some(trade) = self.check_down_entry(state, up_price) {
                            let old_position = &self.positions[i];
                            let up_entry: Option<Trade> = match &old_position.up_entry {
                                Some(t) => Some(t.clone()),
                                None => None,
                            };
                            let position = Position {
                                market_id: old_position.market_id.clone(),
                                up_entry,
                                down_entry: Some(trade.clone()),
                            };
                            proof {
                                lemma_keyed_update(self.positions@, position_key(), position_value(), i as int, position);
                            }
                            self.positions.set(i, position);
                            trades.push(trade);
                        }
                    }
                }
            },
        }
        proof {
            lemma_keyed_len(old(self).positions@, position_key(), position_value());
            lemma_keyed_len(self.positions@, position_key(), position_value());
        }
        trades
    }

    /// Drops the positions held in the settled markets.
    pub fn cleanup_settled_positions(&mut self, settled_markets: &[String])
        requires
            old(self).wf(),
        ensures
            final(self).wf(),
            final(self)@ == old(self)@.remove_keys(
                settled_markets@.map_values(|m: String| m@).to_set(),
            ),
            final(self)@.dom().finite(),
            final(self)@.len() == old(self)@.len() - old(self)@.dom().intersect(
                settled_markets@.map_values(|m: String| m@).to_set(),
            ).len(),
    {
        proof {
            lemma_keyed_len(old(self).positions@, position_key(), position_value());
        }
        let n = settled_markets.len();
        let ghost settled = settled_markets@.map_values(|m: String| m@);
        let mut j: usize = 0;
        while j < n
            invariant
                n == settled_markets@.len(),
                settled == settled_markets@.map_values(|m: String| m@),
                j <= n,
                self.wf(),
                self@ == old(self)@.remove_keys(settled.take(j as int).to_set()),
            decreases n - j,
        {
            let market_id = &settled_markets[j];
            let ghost before = self@;
            match self.find_position(market_id) {
                Some(i) => {
                    proof {
                        lemma_keyed_remove(self.positions@, position_key(), position_value(), i as int);
                        assert forall|k: int|
                            0 <= k < self.positions@.remove(i as int).len() implies position_invariant(
                            #[trigger] self.positions@.remove(i as int)[k],
                        ) by {
                            let k2 = if k < i { k } else { k + 1 };
                            assert(self.positions@.remove(i as int)[k] == self.positions@[k2]);
                        }
                    }
                    self.positions.remove(i);
                },
                None => {},
            }
            proof {
                assert(settled.take(j + 1) =~= settled.take(j as int).push(market_id@));
                assert(self@ =~= before.remove(market_id@));
                let ghost sa = settled.take(j as int);
                let ghost sb = settled.take(j + 1);
                assert(sb.to_set() =~= sa.to_set().insert(market_id@)) by {
                    assert(sb[j as int] == market_id@);
                    assert forall|x: Seq<char>| sa.to_set().contains(x) implies sb.to_set().contains(
                        x,
                    ) by {
                        let a = choose|a: int| 0 <= a < sa.len() && #[trigger] sa[a] == x;
                        assert(sb[a] == x);
                    }
                    assert forall|x: Seq<char>|
                        sb.to_set().contains(x) && x != market_id@ implies sa.to_set().contains(x) by {
                        let a = choose|a: int| 0 <= a < sb.len() && #[trigger] sb[a] == x;
                        assert(sa[a] == x);
                    }
                }
                assert(self@ =~= old(self)@.remove_keys(settled.take(j + 1).to_set()));
            }
            j = j + 1;
        }
        proof {
            assert(settled.take(n as int) =~= settled);
            lemma_keyed_len(self.positions@, position_key(), position_value());
            let before = old(self)@.dom();
            let gone = settled.to_set();
            assert(self@.dom() =~= before.difference(gone));
            vstd::set_lib::lemma_set_difference_len(before, gone);
        }
    }

    /// Number of markets with an open position.
    pub fn active_position_count(&self) -> (r: usize)
        requires
            self.wf(),
        ensures
            r == self@.len(),
    {
        proof {
            lemma_keyed_len(self.positions@, position_key(), position_value());
        }
        self.positions.len()
    }
}

/// The Up signal is exactly the three conditions of the first leg: the
/// snapshot lies in the entry window, Up's best ask is at most
/// `UP_PRICE_THRESHOLD`, and BTC moved by at most `BTC_1M_DROP_TRIGGER`
/// (a drop of at least 3%) over one minute.
pub proof fn lemma_up_signal_conditions(state: MarketState)
    ensures
        up_entry_signal(state) <==> {
            &&& ENTRY_WINDOW_END <= state.spec_time_to_end() <= ENTRY_WINDOW_START
            &&& state.up_ask <= UP_PRICE_THRESHOLD
            &&& state.btc_change_1m <= BTC_1M_DROP_TRIGGER
        },
{
}

/// The Up signal reads nothing but the settlement instant, the snapshot's
/// instant, Up's best ask and the one-minute BTC move: two snapshots that
/// agree on those give the same answer, whatever their last traded prices,
/// Down's ask or the five-minute move.
pub proof fn lemma_up_signal_reads_only_ask_window_and_drop(a: MarketState, b: MarketState)
    requires
        a.end_time == b.end_time,
        a.timestamp == b.timestamp,
        a.up_ask == b.up_ask,
        a.btc_change_1m == b.btc_change_1m,
    ensures
        up_entry_signal(a) == up_entry_signal(b),
{
}

/// The Down signal is exactly the four conditions of the second leg: the
/// snapshot lies in the entry window, Down's best ask is below
/// `DOWN_PRICE_THRESHOLD`, the Up entry price plus Down's ask is at most
/// `MAX_TOTAL_COST`, and BTC moved by at least `BTC_BOUNCE_TRIGGER` over one
/// minute.
pub proof fn lemma_down_signal_conditions(state: MarketState, up_entry_price: int)
    ensures
        down_entry_signal(state, up_entry_price) <==> {
            &&& ENTRY_WINDOW_END <= state.spec_time_to_end() <= ENTRY_WINDOW_START
            &&& state.down_ask < DOWN_PRICE_THRESHOLD
            &&& up_entry_price + state.down_ask <= MAX_TOTAL_COST
            &&& state.btc_change_1m >= BTC_BOUNCE_TRIGGER
        },
{
}

/// The Down signal reads nothing but the settlement instant, the snapshot's
/// instant, Down's best ask, the one-minute BTC move and the price the Up
/// leg was bought at: the pair's cost is that price plus Down's ask, so Up's
/// current ask or last price plays no part.
pub proof fn lemma_down_signal_reads_only_ask_window_and_bounce(
    a: MarketState,
    b: MarketState,
    up_entry_price: int,
)
    requires
        a.end_time == b.end_time,
        a.timestamp == b.timestamp,
        a.down_ask == b.down_ask,
        a.btc_change_1m == b.btc_change_1m,
    ensures
        down_entry_signal(a, up_entry_price) == down_entry_signal(b, up_entry_price),
{
}

/// A cheaper Up leg never blocks the Down leg: if the second leg is taken
/// after an Up entry at one price, it is taken after an Up entry at any
/// lower price from the same snapshot.
pub proof fn lemma_down_signal_monotone_in_entry_price(state: MarketState, cheaper: int, dearer: int)
    requires
        cheaper <= dearer,
        down_entry_signal(state, dearer),
    ensures
        down_entry_signal(state, cheaper),
{
}

/// An engine holds finitely many positions: the domain of its view is finite.
pub proof fn lemma_engine_view_finite(engine: &StrategyEngine)
    requires
        engine.wf(),
    ensures
        engine@.dom().finite(),
{
    lemma_keyed_len(engine.positions@, position_key(), position_value());
}

/// Every position an engine holds is keyed by its own market id and
/// satisfies `position_invariant`: it was opened by an Up entry taken inside
/// the entry window on a one-minute drop of at least 3% at an ask of at most
/// 0.25, a Down entry exists only beside that Up entry, and a complete pair
/// costs at most `MAX_TOTAL_COST`, so its expected profit (one USDC per
/// share less the pair's cost) is at least 0.10 USDC.
pub proof fn lemma_held_positions_are_sound(engine: &StrategyEngine)
    requires
        engine.wf(),
    ensures
        forall|k: Seq<char>| #[trigger]
            engine@.contains_key(k) ==> engine@[k].market_id@ == k && position_invariant(
                engine@[k],
            ),
        forall|k: Seq<char>|
            #[trigger] engine@.contains_key(k) && spec_total_cost(engine@[k]) is Some ==> {
                &&& spec_total_cost(engine@[k])->0 <= MAX_TOTAL_COST
                &&& ONE - spec_total_cost(engine@[k])->0 >= ONE - MAX_TOTAL_COST
                &&& ONE - MAX_TOTAL_COST == 100_000
            },
{
    let s = engine.positions@;
    assert forall|k: Seq<char>| #[trigger] engine@.contains_key(k) implies engine@[k].market_id@
        == k && position_invariant(engine@[k]) by {
        lemma_keyed_contains(s, position_key(), position_value(), k);
        let i = choose|i: int| 0 <= i < s.len() && #[trigger] s[i].market_id@ == k;
        lemma_keyed_at(s, position_key(), position_value(), i);
    }
}

} // verus!
