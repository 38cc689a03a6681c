//! The quote generator's rules: where prices and volumes are drawn from,
//! and one generation's update of every tracked quote.
use vstd::prelude::*;
use rand::Rng;
use crate::quote::{StockQuote, records};
use crate::request::string_from_chars;

verus! {

/// The three high-liquidity tickers: `AAPL`, `MSFT`, `TSLA`.
pub open spec fn is_popular_ticker(t: Seq<char>) -> bool {
    ||| t == seq!['A', 'A', 'P', 'L']
    ||| t == seq!['M', 'S', 'F', 'T']
    ||| t == seq!['T', 'S', 'L', 'A']
}

/// Half-open range of a ticker's volume: `[1000, 6000)` for the
/// high-liquidity tickers, `[100, 1100)` for the others.
pub open spec fn volume_range(t: Seq<char>) -> (u32, u32) {
    if is_popular_ticker(t) {
        (1000, 6000)
    } else {
        (100, 1100)
    }
}

/// Half-open range of a first price: `[10, 100000)`.
pub open spec fn initial_price_range() -> (u32, u32) {
    (10, 100000)
}

/// Half-open range of the price that follows `p`: `[p, 2p)` below 100, else
/// `p` moved by at most `⌊p/100⌋·20` either way, the upper end capped at `u32::MAX`.
pub open spec fn price_window(p: u32) -> (u32, u32) {
    if p < 100 {
        (p, (2 * p) as u32)
    } else {
        let band = (p / 100) * 20;
        (
            (p - band) as u32,
            if p + band > u32::MAX {
                u32::MAX
            } else {
                (p + band) as u32
            },
        )
    }
}

/// `x` lies in the half-open range `r`.
pub open spec fn in_range(x: u32, r: (u32, u32)) -> bool {
    r.0 <= x < r.1
}

/// What one generation may make of a quote: same ticker, a price from the
/// window of the old price, a volume from the ticker's class, the given time.
pub open spec fn next_generation(old: StockQuote, new: StockQuote, now: i64) -> bool {
    &&& new.ticker@ == old.ticker@
    &&& in_range(new.price, price_window(old.price))
    &&& in_range(new.volume, volume_range(old.ticker@))
    &&& new.timestamp == now
}

/// What a first generation may make for a ticker.
pub open spec fn first_generation(ticker: Seq<char>, new: StockQuote, now: i64) -> bool {
    &&& new.ticker@ == ticker
    &&& in_range(new.price, initial_price_range())
    &&& in_range(new.volume, volume_range(ticker))
    &&& new.timestamp == now
}

/// Relies on rand 0.9's `rng()` and `Rng::random_range`: a value of `lo..hi`
/// from the thread-local generator. It panics on an empty range, which
/// `requires` leaves out.
#[verifier::external_body]
fn random_in(lo: u32, hi: u32) -> (r: u32)
    requires
        lo < hi,
    ensures
        lo <= r < hi,
{
    rand::rng().random_range(lo..hi)
}

fn chars_are(t: &String, a: char, b: char, c: char, d: char) -> (r: bool)
    ensures
        r == (t@ == seq![a, b, c, d]),
{
    let lit = vec![a, b, c, d];
    let other = string_from_chars(&lit);
    t.eq(&other)
}

/// Whether `ticker` is one of the high-liquidity tickers.
pub fn is_popular(ticker: &String) -> (r: bool)
    ensures
        r == is_popular_ticker(ticker@),
{
    chars_are(ticker, 'A', 'A', 'P', 'L') || chars_are(ticker, 'M', 'S', 'F', 'T') || chars_are(
        ticker,
        'T',
        'S',
        'L',
        'A',
    )
}

/// The volume range of `ticker`.
pub fn volume_bounds(ticker: &String) -> (r: (u32, u32))
    ensures
        r == volume_range(ticker@),
        r.0 > 0,
        r.0 < r.1,
{
    if is_popular(ticker) {
        (1000, 6000)
    } else {
        (100, 1100)
    }
}

/// The window of the price that follows `p`; never empty, never reaching 0.
pub fn price_bounds(p: u32) -> (r: (u32, u32))
    requires
        p > 0,
    ensures
        r == price_window(p),
        0 < r.0 < r.1,
        r.0 <= p,
{
    if p < 100 {
        (p, 2 * p)
    } else {
        let band = (p / 100) * 20;
        let hi = if p > u32::MAX - band {
            u32::MAX
        } else {
            p + band
        };
        (p - band, hi)
    }
}

/// A new quote for `ticker` at time `now`: the first one when `last_price`
/// is `None`, else the one following a quote priced `last_price`. Price and
/// volume are drawn at random from their ranges.
pub fn generate_quote(ticker: &String, last_price: Option<u32>, now: i64) -> (q: StockQuote)
    requires
        last_price matches Some(p) ==> p > 0,
    ensures
        q.ticker@ == ticker@,
        q.timestamp == now,
        q.price > 0,
        q.volume > 0,
        in_range(q.volume, volume_range(ticker@)),
        match last_price {
            None => in_range(q.price, initial_price_range()),
            Some(p) => in_range(q.price, price_window(p)),
        },
{
    let price = match last_price {
        None => random_in(10, 100000),
        Some(p) => {
            let (lo, hi) = price_bounds(p);
            random_in(lo, hi)
        },
    };
    let (vlo, vhi) = volume_bounds(ticker);
    let volume = random_in(vlo, vhi);
    StockQuote { ticker: ticker.clone(), price, volume, timestamp: now }
}

/// One quote per ticker, in the order given, all stamped `now`.
pub fn initial_quotes(tickers: &Vec<String>, now: i64) -> (r: Vec<StockQuote>)
    ensures
        r@.len() == tickers@.len(),
        forall|i: int| 0 <= i < r@.len() ==> first_generation(tickers@[i]@, #[trigger] r@[i], now),
        forall|i: int| 0 <= i < r@.len() ==> (#[trigger] r@[i]).price > 0,
{
    let mut r: Vec<StockQuote> = Vec::new();
    let mut i: usize = 0;
    while i < tickers.len()
        invariant
            0 <= i <= tickers@.len(),
            r@.len() == i,
            forall|j: int| 0 <= j < i ==> first_generation(tickers@[j]@, #[trigger] r@[j], now),
            forall|j: int| 0 <= j < i ==> (#[trigger] r@[j]).price > 0,
        decreases tickers@.len() - i,
    {
        let q = generate_quote(&tickers[i], None, now);
        r.push(q);
        i = i + 1;
    }
    r
}

/// Advances every quote by one generation, in place, stamping each `now`.
/// Prices stay positive, so the next generation is always possible.
pub fn advance_quotes(stocks: &mut Vec<StockQuote>, now: i64)
    requires
        forall|i: int| 0 <= i < old(stocks)@.len() ==> (#[trigger] old(stocks)@[i]).price > 0,
    ensures
        final(stocks)@.len() == old(stocks)@.len(),
        forall|i: int|
            0 <= i < final(stocks)@.len() ==> next_generation(
                old(stocks)@[i],
                #[trigger] final(stocks)@[i],
                now,
            ),
        forall|i: int| 0 <= i < final(stocks)@.len() ==> (#[trigger] final(stocks)@[i]).price > 0,
{
    let ghost start = stocks@;
    let mut i: usize = 0;
    while i < stocks.len()
        invariant
            0 <= i <= stocks@.len(),
            stocks@.len() == start.len(),
            forall|j: int| 0 <= j < start.len() ==> (#[trigger] start[j]).price > 0,
            forall|j: int| 0 <= j < i ==> next_generation(start[j], #[trigger] stocks@[j], now),
            forall|j: int| 0 <= j < i ==> (#[trigger] stocks@[j]).price > 0,
            forall|j: int| i <= j < stocks@.len() ==> #[trigger] stocks@[j] == start[j],
        decreases stocks@.len() - i,
    {
        let new = generate_quote(&stocks[i].ticker, Some(stocks[i].price), now);
        stocks.set(i, new);
        i = i + 1;
    }
}

/// A copy of the quotes, for a snapshot that subscribers read.
pub fn snapshot(stocks: &Vec<StockQuote>) -> (r: Vec<StockQuote>)
    ensures
        records(r@) == records(stocks@),
{
    let mut r: Vec<StockQuote> = Vec::new();
    let mut i: usize = 0;
    while i < stocks.len()
        invariant
            0 <= i <= stocks@.len(),
            records(r@) =~= records(stocks@.subrange(0, i as int)),
        decreases stocks@.len() - i,
    {
        let q = &stocks[i];
        let ghost before = r@;
        r.push(
            StockQuote {
                ticker: q.ticker.clone(),
                price: q.price,
                volume: q.volume,
                timestamp: q.timestamp,
            },
        );
        assert(records(r@) =~= records(before).push(stocks@[i as int]@));
        assert(stocks@.subrange(0, i + 1) =~= stocks@.subrange(0, i as int).push(stocks@[i as int]));
        i = i + 1;
    }
    assert(stocks@.subrange(0, i as int) =~= stocks@);
    r
}

} // verus!
