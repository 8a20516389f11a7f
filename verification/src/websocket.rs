//! The market-data websocket client's state, and the recent BTC price
//! history from which one-minute and five-minute moves are read.
use vstd::prelude::*;
use std::collections::VecDeque;

use crate::adapters::utc_now_micros;

verus! {

/// Client of the Polymarket market websocket.
pub struct PolymarketWsClient {
    connected: bool,
}

impl PolymarketWsClient {
    /// Whether `connect` has been called.
    pub closed spec fn is_connected(&self) -> bool {
        self.connected
    }

    /// A client not yet connected.
    pub fn new() -> (c: Self)
        ensures
            !c.is_connected(),
    {
        PolymarketWsClient { connected: false }
    }

    /// Marks the client connected.
    pub fn connect(&mut self)
        ensures
            final(self).is_connected(),
    {
        self.connected = true;
    }
}

/// How long price samples are kept: ten minutes, in microseconds.
pub const HISTORY_WINDOW_MICROS: i64 = 600_000_000;

/// `h` with its leading samples older than `cutoff` dropped, stopping at the
/// first sample that is not.
pub open spec fn drop_stale(h: Seq<(i64, i64)>, cutoff: int) -> Seq<(i64, i64)>
    decreases h.len(),
{
    if h.len() > 0 && h[0].0 < cutoff {
        drop_stale(h.drop_first(), cutoff)
    } else {
        h
    }
}

/// The history after recording `price` sampled at `sampled_at`, the clock
/// then reading `now`: the sample appended, then the leading samples older
/// than ten minutes before `now` dropped.
pub open spec fn recorded(h: Seq<(i64, i64)>, price: i64, sampled_at: i64, now: i64) -> Seq<(i64, i64)> {
    drop_stale(h.push((sampled_at, price)), now - HISTORY_WINDOW_MICROS)
}

proof fn lemma_drop_stale_suffix(h: Seq<(i64, i64)>, cutoff: int)
    ensures
        drop_stale(h, cutoff).len() <= h.len(),
        drop_stale(h, cutoff) == h.skip(h.len() - drop_stale(h, cutoff).len()),
        drop_stale(h, cutoff).len() > 0 ==> drop_stale(h, cutoff)[0].0 >= cutoff,
        h.len() > 0 && h.last().0 >= cutoff ==> drop_stale(h, cutoff).len() > 0,
        forall|j: int|
            0 <= j < h.len() - drop_stale(h, cutoff).len() ==> #[trigger] h[j].0 < cutoff,
    decreases h.len(),
{
    if h.len() > 0 && h[0].0 < cutoff {
        let t = h.drop_first();
        lemma_drop_stale_suffix(t, cutoff);
        assert forall|j: int| 0 <= j < h.len() - drop_stale(h, cutoff).len() implies #[trigger] h[j].0
            < cutoff by {
            if j > 0 {
                assert(h[j] == t[j - 1]);
            }
        }
        assert(h.skip(h.len() - drop_stale(t, cutoff).len()) =~= t.skip(
            t.len() - drop_stale(t, cutoff).len(),
        ));
        if h.len() > 1 {
            assert(t.last() == h.last());
        }
    } else {
        assert(h.skip(0) =~= h);
    }
}

/// Recording a price keeps a suffix of the history: after recording `price`
/// sampled at `sampled_at` with the clock at `now`, the history is a suffix
/// of the old history with the new sample appended, every sample it starts
/// with is at most ten minutes older than `now`, and unless the new sample
/// is itself that old it is kept as the last one.
pub proof fn lemma_record_keeps_latest(h: Seq<(i64, i64)>, price: i64, sampled_at: i64, now: i64)
    ensures
        recorded(h, price, sampled_at, now) == h.push((sampled_at, price)).skip(
            h.len() + 1 - recorded(h, price, sampled_at, now).len(),
        ),
        recorded(h, price, sampled_at, now).len() > 0 ==> recorded(h, price, sampled_at, now)[0].0
            >= now - HISTORY_WINDOW_MICROS,
        sampled_at >= now - HISTORY_WINDOW_MICROS ==> recorded(h, price, sampled_at, now).len()
            >= 1 && recorded(h, price, sampled_at, now).last() == (sampled_at, price),
{
    let p = h.push((sampled_at, price));
    lemma_drop_stale_suffix(p, now - HISTORY_WINDOW_MICROS);
    let r = recorded(h, price, sampled_at, now);
    if r.len() > 0 {
        assert(r.last() == p.last());
    }
}

/// Recording drops exactly the stale head of the history: with `p` the old
/// history followed by the new sample, what is kept is a suffix of `p`;
/// every sample dropped was taken more than ten minutes before `now`; and
/// the first sample kept was not, so no sample at or after the first fresh
/// one is ever dropped, however many there are.
pub proof fn lemma_recorded_drops_exactly_the_stale(
    h: Seq<(i64, i64)>,
    price: i64,
    sampled_at: i64,
    now: i64,
)
    ensures
        ({
            let p = h.push((sampled_at, price));
            let r = recorded(h, price, sampled_at, now);
            &&& r.len() <= p.len()
            &&& r == p.skip(p.len() - r.len())
            &&& forall|j: int|
                0 <= j < p.len() - r.len() ==> #[trigger] p[j].0 < now - HISTORY_WINDOW_MICROS
            &&& r.len() > 0 ==> r[0].0 >= now - HISTORY_WINDOW_MICROS
        }),
{
    lemma_drop_stale_suffix(h.push((sampled_at, price)), now - HISTORY_WINDOW_MICROS);
}

/// Recording only ever drops stale samples: once the old history holds a
/// sample taken at or after ten minutes before `now`, that sample and every
/// later one are still held, in order, and the new sample comes last.
pub proof fn lemma_record_keeps_every_fresh_sample(
    h: Seq<(i64, i64)>,
    price: i64,
    sampled_at: i64,
    now: i64,
    i: int,
)
    requires
        0 <= i < h.len(),
        h[i].0 >= now - HISTORY_WINDOW_MICROS,
    ensures
        ({
            let r = recorded(h, price, sampled_at, now);
            let dropped = h.len() + 1 - r.len();
            &&& r.len() >= h.len() + 1 - i
            &&& forall|k: int| i <= k < h.len() ==> #[trigger] r[k - dropped] == h[k]
            &&& r.last() == (sampled_at, price)
        }),
{
    let p = h.push((sampled_at, price));
    let r = recorded(h, price, sampled_at, now);
    lemma_recorded_drops_exactly_the_stale(h, price, sampled_at, now);
    assert(p[i] == h[i]);
    let dropped = h.len() + 1 - r.len();
    assert(i >= dropped);
    assert forall|k: int| i <= k < h.len() implies #[trigger] r[k - dropped] == h[k] by {
        assert(p[k] == h[k]);
    }
    assert(r[r.len() - 1] == p[p.len() - 1]);
}

/// Index of the latest sample among the first `n` taken at or before
/// `cutoff`, or -1 when there is none.
pub open spec fn last_at_or_before(h: Seq<(i64, i64)>, cutoff: int, n: int) -> int
    decreases n,
{
    if n <= 0 {
        -1
    } else if h[n - 1].0 <= cutoff {
        n - 1
    } else {
        last_at_or_before(h, cutoff, n - 1)
    }
}

/// The price a move is measured from: the latest sample taken at or before
/// `cutoff`, or the earliest sample when all are later.
pub open spec fn reference_price(h: Seq<(i64, i64)>, cutoff: int) -> int {
    let i = last_at_or_before(h, cutoff, h.len() as int);
    if i >= 0 {
        h[i].1 as int
    } else {
        h[0].1 as int
    }
}

/// `a / b` rounded toward zero (`b != 0`).
pub open spec fn div_toward_zero(a: int, b: int) -> int {
    let q = (if a >= 0 {
        a
    } else {
        -a
    }) / (if b >= 0 {
        b
    } else {
        -b
    });
    if (a < 0) != (b < 0) {
        -q
    } else {
        q
    }
}

/// The move from `reference` to `current` as a ratio in millionths,
/// `(current - reference) / reference`, rounded toward zero; nothing when
/// the reference is zero (the ratio is not finite) or the ratio does not
/// fit an `i64`.
pub open spec fn relative_change(current: int, reference: int) -> Option<i64> {
    if reference == 0 {
        None
    } else {
        let q = div_toward_zero((current - reference) * 1_000_000, reference);
        if i64::MIN <= q <= i64::MAX {
            Some(q as i64)
        } else {
            None
        }
    }
}

/// The BTC move over the last `seconds` before `now`, measured on the
/// history `h`: zero with fewer than two samples, otherwise the latest
/// price against the reference price for `now - seconds`.
pub open spec fn change_over(h: Seq<(i64, i64)>, seconds: int, now: int) -> Option<i64> {
    if h.len() < 2 {
        Some(0)
    } else {
        relative_change(h.last().1 as int, reference_price(h, now - seconds * 1_000_000))
    }
}

/// The recent BTC prices, as (microseconds since the epoch, price in
/// millionths of a USD), oldest first.
pub struct BtcPriceClient {
    price_history: VecDeque<(i64, i64)>,
}

impl View for BtcPriceClient {
    type V = Seq<(i64, i64)>;

    closed spec fn view(&self) -> Seq<(i64, i64)> {
        self.price_history@
    }
}

impl BtcPriceClient {
    /// A client with no samples.
    pub fn new() -> (c: Self)
        ensures
            c@ == Seq::<(i64, i64)>::empty(),
    {
        BtcPriceClient { price_history: VecDeque::with_capacity(1000) }
    }

    /// Records `price` as sampled at `sampled_at` and drops the leading
    /// samples older than ten minutes before `now` (both in microseconds
    /// since the epoch).
    pub fn record_price_at(&mut self, price: i64, sampled_at: i64, now: i64)
        ensures
            final(self)@ == recorded(old(self)@, price, sampled_at, now),
            ({
                let p = old(self)@.push((sampled_at, price));
                let kept = final(self)@.len();
                &&& kept <= p.len()
                &&& final(self)@ == p.skip(p.len() - kept)
                &&& forall|j: int|
                    0 <= j < p.len() - kept ==> #[trigger] p[j].0 < now - HISTORY_WINDOW_MICROS
                &&& kept > 0 ==> final(self)@[0].0 >= now - HISTORY_WINDOW_MICROS
            }),
    {
        proof {
            lemma_recorded_drops_exactly_the_stale(old(self)@, price, sampled_at, now);
        }
        self.price_history.push_back((sampled_at, price));
        let cutoff: i128 = now as i128 - HISTORY_WINDOW_MICROS as i128;
        let ghost target = recorded(old(self)@, price, sampled_at, now);
        let mut done = false;
        while !done && self.price_history.len() > 0
            invariant
                cutoff == now - HISTORY_WINDOW_MICROS,
                drop_stale(self.price_history@, cutoff as int) == target,
                done ==> self.price_history@.len() > 0 && self.price_history@[0].0 >= cutoff,
            decreases self.price_history@.len(), (if done {
                0int
            } else {
                1int
            }),
        {
            let (t, _) = self.price_history[0];
            if (t as i128) < cutoff {
                let ghost before = self.price_history@;
                self.price_history.pop_front();
                assert(self.price_history@ =~= before.drop_first());
            } else {
                done = true;
            }
        }
    }

    /// Records `price` as sampled now and drops the samples older than ten
    /// minutes (the clock is read once for the sample and once more for the
    /// cutoff).
    pub fn update_price(&mut self, price: i64)
        ensures
            exists|sampled_at: i64, now: i64|
                sampled_at >= 0 && now >= 0 && final(self)@ == recorded(
                    old(self)@,
                    price,
                    sampled_at,
                    now,
                ) && {
                    let p = old(self)@.push((sampled_at, price));
                    let kept = final(self)@.len();
                    &&& kept <= p.len()
                    &&& final(self)@ == p.skip(p.len() - kept)
                    &&& forall|j: int|
                        0 <= j < p.len() - kept ==> #[trigger] p[j].0 < now - HISTORY_WINDOW_MICROS
                    &&& kept > 0 ==> final(self)@[0].0 >= now - HISTORY_WINDOW_MICROS
                },
    {
        let sampled_at = utc_now_micros();
        let now = utc_now_micros();
        self.record_price_at(price, sampled_at, now);
    }

    /// The BTC move over the last `seconds` before `now`, in millionths.
    pub fn change_at(&self, seconds: i64, now: i64) -> (r: Option<i64>)
        ensures
            r == change_over(self@, seconds as int, now as int),
    {
        let h = &self.price_history;
        let n = h.len();
        if n < 2 {
            return Some(0);
        }
        let current: i64 = h[n - 1].1;
        let cutoff: i128 = now as i128 - seconds as i128 * 1_000_000;
        let ghost hs = h@;
        let mut i: usize = n;
        let mut reference: i64 = h[0].1;
        while i > 0
            invariant
                hs == h@,
                hs == self@,
                n == hs.len(),
                n >= 2,
                i <= n,
                reference == hs[0].1,
                current == hs[n - 1].1,
                cutoff == now - seconds * 1_000_000,
                last_at_or_before(hs, cutoff as int, n as int) == last_at_or_before(
                    hs,
                    cutoff as int,
                    i as int,
                ),
            decreases i,
        {
            let (t, p) = h[i - 1];
            if (t as i128) <= cutoff {
                reference = p;
                proof {
                    assert(hs[i - 1] == (t, p));
                    assert(last_at_or_before(hs, cutoff as int, i as int) == i - 1);
                    assert(reference_price(hs, cutoff as int) == p);
                    assert(hs.last().1 == current);
                    assert(hs == self@);
                    assert(change_over(hs, seconds as int, now as int) == relative_change(
                        current as int,
                        p as int,
                    ));
                }
                return relative_ratio(current, reference);
            }
            proof {
                assert(hs[i - 1] == (t, p));
            }
            i = i - 1;
        }
        proof {
            assert(last_at_or_before(hs, cutoff as int, 0) == -1);
            assert(hs.last().1 == current);
        }
        relative_ratio(current, reference)
    }

    /// The BTC move over the last `seconds`, in millionths.
    pub fn calculate_change(&self, seconds: i64) -> (r: Option<i64>)
        ensures
            exists|now: i64| now >= 0 && r == change_over(self@, seconds as int, now as int),
    {
        let now = utc_now_micros();
        self.change_at(seconds, now)
    }
}

/// `(current - reference) / reference` in millionths, rounded toward zero.
fn relative_ratio(current: i64, reference: i64) -> (r: Option<i64>)
    ensures
        r == relative_change(current as int, reference as int),
{
    if reference == 0 {
        return None;
    }
    let diff: i128 = current as i128 - reference as i128;
    let scaled: i128 = diff * 1_000_000;
    let scaled_abs: i128 = if scaled >= 0 {
        scaled
    } else {
        -scaled
    };
    let reference_abs: i128 = if reference >= 0 {
        reference as i128
    } else {
        -(reference as i128)
    };
    let magnitude: i128 = scaled_abs / reference_abs;
    let q: i128 = if (scaled < 0) != (reference < 0) {
        -magnitude
    } else {
        magnitude
    };
    if q < i64::MIN as i128 || q > i64::MAX as i128 {
        return None;
    }
    Some(q as i64)
}

} // verus!
