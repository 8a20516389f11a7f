//! Best bid and ask per token, kept from the CLOB order-book feed.
use vstd::prelude::*;
use vstd::string::*;

use crate::decimal::{parse_micros, parse_micros_spec};
use crate::keyed::{
    keyed_map, keys_of, lemma_keyed_at, lemma_keyed_contains, lemma_keyed_push, lemma_keyed_update,
};
use crate::types::OrderBookLevel;

verus! {

/// An order-book message of the CLOB market channel.
pub struct BookMessage {
    pub event_type: String,
    pub asset_id: Option<String>,
    pub bids: Option<Vec<OrderBookLevel>>,
    pub asks: Option<Vec<OrderBookLevel>>,
}

/// One entry of the price table: token id, best bid, best ask.
pub type PriceEntry = (String, i64, i64);

/// The key of a price entry: its token id.
pub open spec fn price_key() -> spec_fn(PriceEntry) -> Seq<char> {
    |e: PriceEntry| e.0@
}

/// The value of a price entry: (best bid, best ask).
pub open spec fn price_value() -> spec_fn(PriceEntry) -> (i64, i64) {
    |e: PriceEntry| (e.1, e.2)
}

/// The token ids of a price table, in order.
pub open spec fn price_keys(s: Seq<PriceEntry>) -> Seq<Seq<char>> {
    keys_of(s, price_key())
}

/// A price table as a map from token id to (best bid, best ask).
pub open spec fn price_map(s: Seq<PriceEntry>) -> Map<Seq<char>, (i64, i64)> {
    keyed_map(s, price_key(), price_value())
}

/// The CLOB order-book client: the last best bid and ask seen per token.
pub struct ClobClient {
    prices: Vec<PriceEntry>,
}

impl View for ClobClient {
    type V = Map<Seq<char>, (i64, i64)>;

    closed spec fn view(&self) -> Map<Seq<char>, (i64, i64)> {
        price_map(self.prices@)
    }
}

/// The highest price among the levels whose price reads, or nothing when
/// none does.
pub open spec fn highest_price(levels: Seq<OrderBookLevel>) -> Option<i64>
    decreases levels.len(),
{
    if levels.len() == 0 {
        None
    } else {
        let rest = highest_price(levels.drop_last());
        match parse_micros_spec(levels.last().price@) {
            None => rest,
            Some(p) => match rest {
                None => Some(p),
                Some(q) => Some(if p > q { p } else { q }),
            },
        }
    }
}

/// The lowest price among the levels whose price reads, or nothing when
/// none does.
pub open spec fn lowest_price(levels: Seq<OrderBookLevel>) -> Option<i64>
    decreases levels.len(),
{
    if levels.len() == 0 {
        None
    } else {
        let rest = lowest_price(levels.drop_last());
        match parse_micros_spec(levels.last().price@) {
            None => rest,
            Some(p) => match rest {
                None => Some(p),
                Some(q) => Some(if p < q { p } else { q }),
            },
        }
    }
}

/// The message is a full book for a token whose first bid level and first
/// ask level both have prices that read.
pub open spec fn book_update_accepted(msg: BookMessage) -> bool {
    &&& msg.event_type@ == "book"@
    &&& msg.bids matches Some(bids)
    &&& msg.asks matches Some(asks)
    &&& msg.asset_id is Some
    &&& bids@.len() > 0
    &&& asks@.len() > 0
    &&& parse_micros_spec(bids@[0].price@) is Some
    &&& parse_micros_spec(asks@[0].price@) is Some
}

/// When the first level's price reads, some level's price reads.
proof fn lemma_first_level_reads(levels: Seq<OrderBookLevel>)
    requires
        levels.len() > 0,
        parse_micros_spec(levels[0].price@) is Some,
    ensures
        highest_price(levels) is Some,
        lowest_price(levels) is Some,
    decreases levels.len(),
{
    if levels.len() > 1 {
        assert(levels.drop_last()[0] == levels[0]);
        lemma_first_level_reads(levels.drop_last());
    }
}

/// The (best bid, best ask) that an accepted message carries: the highest
/// bid and the lowest ask among its levels whose prices read.
pub open spec fn book_update_prices(msg: BookMessage) -> (i64, i64) {
    (highest_price(msg.bids->0@)->0, lowest_price(msg.asks->0@)->0)
}

/// The best price among `levels`: the highest when `highest`, the lowest
/// otherwise, over the levels whose prices read.
fn best_price(levels: &Vec<OrderBookLevel>, highest: bool) -> (r: Option<i64>)
    ensures
        highest ==> r == highest_price(levels@),
        !highest ==> r == lowest_price(levels@),
{
    let mut best: Option<i64> = None;
    let mut i: usize = 0;
    while i < levels.len()
        invariant
            i <= levels@.len(),
            highest ==> best == highest_price(levels@.take(i as int)),
            !highest ==> best == lowest_price(levels@.take(i as int)),
        decreases levels@.len() - i,
    {
        let p = parse_micros(levels[i].price.as_str());
        best = match (p, best) {
            (None, b) => b,
            (Some(x), None) => Some(x),
            (Some(x), Some(y)) => if highest {
                Some(if x > y { x } else { y })
            } else {
                Some(if x < y { x } else { y })
            },
        };
        proof {
            assert(levels@.take(i + 1).drop_last() =~= levels@.take(i as int));
            assert(levels@.take(i + 1).last() == levels@[i as int]);
        }
        i = i + 1;
    }
    proof {
        assert(levels@.take(levels@.len() as int) =~= levels@);
    }
    best
}

impl ClobClient {
    /// Well-formedness: one entry per token.
    pub closed spec fn wf(&self) -> bool {
        price_keys(self.prices@).no_duplicates()
    }

    /// A client that has seen no prices.
    pub fn new() -> (c: Self)
        ensures
            c.wf(),
            c@ == Map::<Seq<char>, (i64, i64)>::empty(),
    {
        let c = ClobClient { prices: Vec::new() };
        assert(c@ =~= Map::<Seq<char>, (i64, i64)>::empty());
        c
    }

    /// Index of the entry for `token_id`, if any.
    fn find_token(&self, token_id: &str) -> (r: Option<usize>)
        requires
            self.wf(),
        ensures
            r matches Some(i) ==> i < self.prices@.len() && self.prices@[i as int].0@ == token_id@,
            r is None <==> !self@.contains_key(token_id@),
    {
        let n = self.prices.len();
        let mut i: usize = 0;
        while i < n
            invariant
                n == self.prices@.len(),
                i <= n,
                self.wf(),
                forall|j: int| 0 <= j < i ==> self.prices@[j].0@ != token_id@,
            decreases n - i,
        {
            if str_equal(self.prices[i].0.as_str(), token_id) {
                proof {
                    lemma_keyed_at(self.prices@, price_key(), price_value(), i as int);
                }
                return Some(i);
            }
            i = i + 1;
        }
        proof {
            lemma_keyed_contains(self.prices@, price_key(), price_value(), token_id@);
        }
        None
    }

    /// Records a book update: when the message is a full book whose first
    /// bid and first ask prices read, the token's best bid and ask become the
    /// highest bid and the lowest ask among its levels whose prices read;
    /// any other message leaves the table as it is.
    pub fn handle_book_message(&mut self, msg: BookMessage)
        requires
            old(self).wf(),
        ensures
            final(self).wf(),
            book_update_accepted(msg) ==> final(self)@ == old(self)@.insert(
                msg.asset_id->0@,
                book_update_prices(msg),
            ),
            !book_update_accepted(msg) ==> final(self)@ == old(self)@,
    {
        let book = String::from_str("book");
        proof {
            reveal_strlit("book");
        }
        if msg.event_type != book {
            return;
        }
        let (bids, asks, asset_id) = match (&msg.bids, &msg.asks, &msg.asset_id) {
            (Some(b), Some(a), Some(id)) => (b, a, id),
            _ => return,
        };
        if bids.len() == 0 || asks.len() == 0 {
            return;
        }
        if parse_micros(bids[0].price.as_str()).is_none() || parse_micros(asks[0].price.as_str()).is_none() {
            return;
        }
        proof {
            lemma_first_level_reads(bids@);
            lemma_first_level_reads(asks@);
        }
        let bid = match best_price(bids, true) {
            Some(x) => x,
            None => return,
        };
        let ask = match best_price(asks, false) {
            Some(x) => x,
            None => return,
        };
        let entry: PriceEntry = (asset_id.clone(), bid, ask);
        match self.find_token(asset_id.as_str()) {
            Some(i) => {
                proof {
                    let s = self.prices@;
                    lemma_keyed_update(s, price_key(), price_value(), i as int, entry);
                }
                self.prices.set(i, entry);
            },
            None => {
                proof {
                    let s = self.prices@;
                    lemma_keyed_push(s, price_key(), price_value(), entry);
                }
                self.prices.push(entry);
            },
        }
    }

    /// The best (bid, ask) last recorded for `token_id`.
    pub fn get_price(&self, token_id: &str) -> (r: Option<(i64, i64)>)
        requires
            self.wf(),
        ensures
            r == (if self@.contains_key(token_id@) {
                Some(self@[token_id@])
            } else {
                None
            }),
    {
        match self.find_token(token_id) {
            Some(i) => {
                proof {
                    lemma_keyed_at(self.prices@, price_key(), price_value(), i as int);
                }
                Some((self.prices[i].1, self.prices[i].2))
            },
            None => None,
        }
    }
}

/// Whether two texts are equal.
fn str_equal(a: &str, b: &str) -> (r: bool)
    ensures
        r == (a@ == b@),
{
    let x = String::from_str(a);
    let y = String::from_str(b);
    x == y
}

/// A recorded book update is what a lookup of its token then gives: after
/// a message is accepted for a token, the price of that token is the
/// message's best bid and ask, and every other token keeps its price.
pub proof fn lemma_book_update_then_lookup(
    before: Map<Seq<char>, (i64, i64)>,
    msg: BookMessage,
    token: Seq<char>,
)
    requires
        book_update_accepted(msg),
    ensures
        token == msg.asset_id->0@ ==> before.insert(msg.asset_id->0@, book_update_prices(msg))[token]
            == book_update_prices(msg),
        token != msg.asset_id->0@ ==> (before.insert(
            msg.asset_id->0@,
            book_update_prices(msg),
        ).contains_key(token) == before.contains_key(token)) && (before.contains_key(token)
            ==> before.insert(msg.asset_id->0@, book_update_prices(msg))[token] == before[token]),
{
}

} // verus!
