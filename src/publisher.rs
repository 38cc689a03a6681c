//! Decisions of the server-side publisher of one subscription: which quotes
//! of a snapshot it sends, how it answers probes, and when it stops.
use vstd::prelude::*;
use crate::quote::{StockQuote, QuoteRecord, records};
use crate::request::string_views;
use crate::wire::{
    Tag, classify, data_datagram, data_tag, encodable, payload_of, pong_datagram, pong_tag,
    tag_of, wire_quotes, lemma_round_trip,
};
use crate::PING_WAIT_PERIOD_MS;

verus! {

/// The records of `s` whose ticker is in `t`, in the order of `s`.
pub open spec fn selected(s: Seq<QuoteRecord>, t: Seq<Seq<char>>) -> Seq<QuoteRecord>
    decreases s.len(),
{
    if s.len() == 0 {
        seq![]
    } else {
        let r = selected(s.drop_last(), t);
        if t.contains(s.last().0) {
            r.push(s.last())
        } else {
            r
        }
    }
}

/// Whether `t` is one of `tickers`.
pub fn contains_ticker(tickers: &Vec<String>, t: &String) -> (r: bool)
    ensures
        r == string_views(tickers@).contains(t@),
{
    let mut i: usize = 0;
    while i < tickers.len()
        invariant
            0 <= i <= tickers@.len(),
            forall|j: int| 0 <= j < i ==> (#[trigger] tickers@[j])@ != t@,
        decreases tickers@.len() - i,
    {
        if tickers[i].eq(t) {
            assert(string_views(tickers@)[i as int] == t@);
            return true;
        }
        i = i + 1;
    }
    assert forall|j: int| 0 <= j < string_views(tickers@).len() implies #[trigger] string_views(
        tickers@,
    )[j] != t@ by {
        assert(string_views(tickers@)[j] == tickers@[j]@);
    }
    false
}

/// The quotes of `snapshot` whose ticker is one of `tickers`, in snapshot order.
pub fn filter_quotes(snapshot: &Vec<StockQuote>, tickers: &Vec<String>) -> (r: Vec<StockQuote>)
    ensures
        records(r@) == selected(records(snapshot@), string_views(tickers@)),
{
    let ghost t = string_views(tickers@);
    let mut r: Vec<StockQuote> = Vec::new();
    let mut i: usize = 0;
    while i < snapshot.len()
        invariant
            0 <= i <= snapshot@.len(),
            t == string_views(tickers@),
            records(r@) == selected(records(snapshot@.subrange(0, i as int)), t),
        decreases snapshot@.len() - i,
    {
        let q = &snapshot[i];
        let ghost prefix = snapshot@.subrange(0, i + 1);
        assert(records(prefix).drop_last() =~= records(snapshot@.subrange(0, i as int)));
        assert(records(prefix).last() == q@);
        if contains_ticker(tickers, &q.ticker) {
            let ghost before = r@;
            r.push(
                StockQuote {
                    ticker: q.ticker.clone(),
                    price: q.price,
                    volume: q.volume,
                    timestamp: q.timestamp,
                },
            );
            assert(records(r@) =~= records(before).push(q@));
        }
        i = i + 1;
    }
    assert(snapshot@.subrange(0, i as int) =~= snapshot@);
    r
}

/// State of the publisher of one subscription.
pub struct PublisherState {
    /// Host that the client advertised; probes are taken from it alone.
    pub client_host: String,
    /// The tickers that the client asked for.
    pub tickers: Vec<String>,
    /// When the last valid probe came, in milliseconds of a monotonic clock.
    pub last_ping_ms: u64,
    /// Set once, by a stop request or by a liveness timeout; never cleared.
    pub stopped: bool,
}

impl PublisherState {
    /// A running publisher whose liveness timer starts at `now_ms`.
    pub fn new(client_host: String, tickers: Vec<String>, now_ms: u64) -> (r: PublisherState)
        ensures
            r.client_host@ == client_host@,
            string_views(r.tickers@) == string_views(tickers@),
            r.last_ping_ms == now_ms,
            !r.stopped,
    {
        PublisherState { client_host, tickers, last_ping_ms: now_ms, stopped: false }
    }

    /// Asks the publisher to stop; asking again changes nothing.
    pub fn stop(&mut self)
        ensures
            final(self).stopped,
            final(self).last_ping_ms == old(self).last_ping_ms,
            final(self).client_host == old(self).client_host,
            final(self).tickers == old(self).tickers,
    {
        self.stopped = true;
    }

    /// The check at the head of each loop turn: stops the publisher when the
    /// last valid probe is more than the liveness timeout old, and tells
    /// whether the loop must end.
    pub fn check_liveness(&mut self, now_ms: u64) -> (end: bool)
        ensures
            final(self).stopped == (old(self).stopped || (now_ms > old(self).last_ping_ms && now_ms
                - old(self).last_ping_ms > PING_WAIT_PERIOD_MS)),
            end == final(self).stopped,
            final(self).last_ping_ms == old(self).last_ping_ms,
            final(self).client_host == old(self).client_host,
            final(self).tickers == old(self).tickers,
    {
        if now_ms > self.last_ping_ms && now_ms - self.last_ping_ms > PING_WAIT_PERIOD_MS {
            self.stopped = true;
        }
        self.stopped
    }

    /// The `DATA` datagram for a snapshot: the subscribed quotes, encoded.
    pub fn on_snapshot(&self, snapshot: &Vec<StockQuote>) -> (r: Vec<u8>)
        ensures
            r@ == data_tag() + wire_quotes(selected(records(snapshot@), string_views(self.tickers@))),
    {
        let chosen = filter_quotes(snapshot, &self.tickers);
        data_datagram(&chosen)
    }

    /// Handles one inbound datagram from `source_host`: a `PING` from the
    /// client's host is answered with `PONG` and resets the liveness timer;
    /// anything else is discarded.
    pub fn on_datagram(&mut self, source_host: &String, d: &[u8], now_ms: u64) -> (reply: Option<
        Vec<u8>,
    >)
        ensures
            reply is Some <==> (source_host@ == old(self).client_host@ && tag_of(d@) == Tag::Ping),
            reply is Some ==> reply->Some_0@ == pong_tag(),
            final(self).last_ping_ms == (if reply is Some {
                now_ms
            } else {
                old(self).last_ping_ms
            }),
            final(self).stopped == old(self).stopped,
            final(self).client_host == old(self).client_host,
            final(self).tickers == old(self).tickers,
    {
        if source_host.eq(&self.client_host) && classify(d) == Tag::Ping {
            self.last_ping_ms = now_ms;
            Some(pong_datagram())
        } else {
            None
        }
    }
}

proof fn lemma_selected_members(s: Seq<QuoteRecord>, t: Seq<Seq<char>>, r: QuoteRecord)
    ensures
        selected(s, t).contains(r) <==> (s.contains(r) && t.contains(r.0)),
    decreases s.len(),
{
    if s.len() > 0 {
        lemma_selected_members(s.drop_last(), t, r);
        assert(s =~= s.drop_last().push(s.last()));
        if s.contains(r) && !s.drop_last().contains(r) {
            assert(r == s.last()) by {
                let k = choose|k: int| 0 <= k < s.len() && s[k] == r;
                if k < s.len() - 1 {
                    assert(s.drop_last()[k] == r);
                }
            }
        }
        if s.drop_last().contains(r) {
            let k = choose|k: int| 0 <= k < s.drop_last().len() && s.drop_last()[k] == r;
            assert(s[k] == r);
        }
        let p = selected(s.drop_last(), t);
        if t.contains(s.last().0) {
            if p.contains(r) {
                let k = choose|k: int| 0 <= k < p.len() && p[k] == r;
                assert(p.push(s.last())[k] == r);
            }
            if p.push(s.last()).contains(r) && r != s.last() {
                let k = choose|k: int| 0 <= k < p.len() + 1 && p.push(s.last())[k] == r;
                assert(p[k] == r);
            }
            assert(p.push(s.last())[p.len() as int] == s.last());
        }
    }
}

/// What a subscriber gets: where a request line is accepted with tickers
/// `T`, the `DATA` datagram built from a snapshot decodes to exactly the
/// snapshot's quotes whose ticker is in `T`, in snapshot order.
pub proof fn lemma_stream_delivers_selection(
    line: Seq<char>,
    snapshot: Seq<QuoteRecord>,
    datagram: Seq<u8>,
    decoded: Seq<QuoteRecord>,
)
    requires
        crate::request::request_outcome(line) is Ok,
        datagram == data_tag() + wire_quotes(
            selected(snapshot, crate::request::request_outcome(line)->Ok_0.2),
        ),
        encodable(selected(snapshot, crate::request::request_outcome(line)->Ok_0.2)),
        encodable(decoded),
        wire_quotes(decoded).is_prefix_of(payload_of(datagram)),
    ensures
        tag_of(datagram) == Tag::Data,
        decoded == selected(snapshot, crate::request::request_outcome(line)->Ok_0.2),
        forall|r: QuoteRecord|
            #[trigger] decoded.contains(r) <==> (snapshot.contains(r)
                && crate::request::request_outcome(line)->Ok_0.2.contains(r.0)),
{
    let t = crate::request::request_outcome(line)->Ok_0.2;
    let sel = selected(snapshot, t);
    assert(datagram.subrange(0, 4) =~= data_tag());
    assert(payload_of(datagram) =~= wire_quotes(sel));
    lemma_round_trip(sel, decoded);
    assert forall|r: QuoteRecord| #[trigger] decoded.contains(r) <==> (snapshot.contains(r)
        && t.contains(r.0)) by {
        lemma_selected_members(snapshot, t, r);
    }
}

} // verus!
