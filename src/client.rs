//! Decisions of the client: the receiver that latches the server's
//! data-plane endpoint and dispatches datagrams, and the heartbeat sender
//! that probes the server and forces shutdown after repeated silence.
use vstd::prelude::*;
use crate::quote::{StockQuote, QuoteRecord, records};
use crate::request::string_views;
use crate::publisher::contains_ticker;
use crate::wire::{
    Tag, classify, data_tag, decode_data_datagram, encodable, payload_of, tag_of, wire_quotes,
    lemma_round_trip,
};
use crate::{MAX_NUMBER_IGNORED_PING, QUOTES_WAIT_PERIOD_MS};

verus! {

/// The tickers of `q` that are not in `t`, in order.
pub open spec fn unexpected_tickers(q: Seq<QuoteRecord>, t: Seq<Seq<char>>) -> Seq<Seq<char>>
    decreases q.len(),
{
    if q.len() == 0 {
        seq![]
    } else {
        let r = unexpected_tickers(q.drop_last(), t);
        if t.contains(q.last().0) {
            r
        } else {
            r.push(q.last().0)
        }
    }
}

/// `t + d`, or `u64::MAX` where that does not fit.
pub open spec fn later(t: u64, d: u64) -> u64 {
    if t + d > u64::MAX {
        u64::MAX
    } else {
        (t + d) as u64
    }
}

fn later_exec(t: u64, d: u64) -> (r: u64)
    ensures
        r == later(t, d),
{
    if t > u64::MAX - d {
        u64::MAX
    } else {
        t + d
    }
}

/// What the receiver made of one datagram.
#[derive(Debug)]
pub enum ReceiveEvent {
    /// It came from a host other than the server's: discarded.
    ForeignHost,
    /// A `DATA` datagram whose batch decoded.
    Quotes {
        /// The quotes, in the order sent.
        quotes: Vec<StockQuote>,
        /// Their number differs from the number of subscribed tickers.
        count_mismatch: bool,
        /// Tickers among them that were not subscribed, in order.
        unexpected: Vec<String>,
    },
    /// A `DATA` datagram whose batch did not decode: dropped.
    Undecodable,
    /// The answer to a probe.
    Pong,
    /// Any other tag: discarded.
    UnknownTag,
}

/// State of the client's data-plane receiver.
pub struct ReceiverState {
    /// Host of the server; datagrams from elsewhere are discarded.
    pub server_host: String,
    /// The server's data-plane endpoint, latched from the first datagram of its host.
    pub server_endpoint: Option<String>,
    /// A probe was sent and its answer has not come yet.
    pub awaiting_pong: bool,
    /// The subscribed tickers, each name once.
    pub tickers: Vec<String>,
    /// When to warn that no quotes came, in milliseconds of a monotonic clock.
    pub data_deadline_ms: u64,
}

/// The view of an optional string.
pub open spec fn opt_view(o: Option<String>) -> Option<Seq<char>> {
    match o {
        Some(s) => Some(s@),
        None => None,
    }
}

proof fn lemma_push_contains(s: Seq<Seq<char>>, x: Seq<char>)
    ensures
        forall|t: Seq<char>| #[trigger] s.push(x).contains(t) <==> (s.contains(t) || t == x),
{
    assert forall|t: Seq<char>| #[trigger] s.push(x).contains(t) <==> (s.contains(t) || t == x) by {
        if s.push(x).contains(t) {
            let k = choose|k: int| 0 <= k < s.len() + 1 && s.push(x)[k] == t;
            if k < s.len() {
                assert(s[k] == t);
            }
        }
        if s.contains(t) {
            let k = choose|k: int| 0 <= k < s.len() && s[k] == t;
            assert(s.push(x)[k] == t);
        }
        if t == x {
            assert(s.push(x)[s.len() as int] == x);
        }
    }
}

/// The names of `tickers`, each once, in order of first appearance.
pub fn distinct_tickers(tickers: &Vec<String>) -> (r: Vec<String>)
    ensures
        string_views(r@).no_duplicates(),
        forall|t: Seq<char>| #[trigger] string_views(r@).contains(t) <==> string_views(
            tickers@,
        ).contains(t),
{
    let mut r: Vec<String> = Vec::new();
    let mut i: usize = 0;
    while i < tickers.len()
        invariant
            0 <= i <= tickers@.len(),
            string_views(r@).no_duplicates(),
            forall|t: Seq<char>| #[trigger] string_views(r@).contains(t) <==> string_views(
                tickers@,
            ).subrange(0, i as int).contains(t),
        decreases tickers@.len() - i,
    {
        let ghost before = string_views(r@);
        let ghost names = string_views(tickers@);
        assert(names.subrange(0, i + 1) =~= names.subrange(0, i as int).push(names[i as int]));
        let ghost x = names[i as int];
        proof {
            lemma_push_contains(names.subrange(0, i as int), x);
        }
        if !contains_ticker(&r, &tickers[i]) {
            r.push(tickers[i].clone());
            assert(string_views(r@) =~= before.push(x));
            proof {
                lemma_push_contains(before, x);
                assert forall|a: int, b: int|
                    0 <= a < b < string_views(r@).len() implies string_views(r@)[a] != string_views(
                    r@,
                )[b] by {
                    if b == before.len() {
                        assert(before[a] == string_views(r@)[a]);
                        assert(before.contains(before[a]));
                    }
                }
            }
        }
        i = i + 1;
    }
    assert(string_views(tickers@).subrange(0, i as int) =~= string_views(tickers@));
    r
}

impl ReceiverState {
    /// Subscribed names are distinct, so their count is the size of the subscribed set.
    pub open spec fn wf(&self) -> bool {
        string_views(self.tickers@).no_duplicates()
    }

    /// A receiver that knows no endpoint yet and first warns at `now_ms` plus
    /// the idle window. Repeated ticker names are kept once.
    pub fn new(server_host: String, tickers: Vec<String>, now_ms: u64) -> (r: ReceiverState)
        ensures
            r.wf(),
            r.server_host@ == server_host@,
            forall|t: Seq<char>| #[trigger] string_views(r.tickers@).contains(t) <==> string_views(
                tickers@,
            ).contains(t),
            r.server_endpoint is None,
            !r.awaiting_pong,
            r.data_deadline_ms == later(now_ms, QUOTES_WAIT_PERIOD_MS),
    {
        ReceiverState {
            server_host,
            server_endpoint: None,
            awaiting_pong: false,
            tickers: distinct_tickers(&tickers),
            data_deadline_ms: later_exec(now_ms, QUOTES_WAIT_PERIOD_MS),
        }
    }

    /// Handles one datagram `d` from `source_addr` on `source_host`. A `DATA`
    /// datagram from the server's host that carries an encoded batch is
    /// reported as exactly that batch.
    pub fn on_datagram(
        &mut self,
        source_host: &String,
        source_addr: &String,
        d: &[u8],
        now_ms: u64,
    ) -> (ev: ReceiveEvent)
        requires
            old(self).wf(),
        ensures
            final(self).wf(),
            final(self).server_host == old(self).server_host,
            final(self).tickers == old(self).tickers,
            source_host@ != old(self).server_host@ ==> {
                &&& ev is ForeignHost
                &&& opt_view(final(self).server_endpoint) == opt_view(old(self).server_endpoint)
                &&& final(self).awaiting_pong == old(self).awaiting_pong
                &&& final(self).data_deadline_ms == old(self).data_deadline_ms
            },
            source_host@ == old(self).server_host@ ==> {
                &&& opt_view(final(self).server_endpoint) == (if old(
                    self,
                ).server_endpoint is None {
                    Some(source_addr@)
                } else {
                    opt_view(old(self).server_endpoint)
                })
                &&& final(self).awaiting_pong == (old(self).awaiting_pong && tag_of(d@)
                    != Tag::Pong)
                &&& final(self).data_deadline_ms == (if tag_of(d@) == Tag::Data {
                    later(now_ms, QUOTES_WAIT_PERIOD_MS)
                } else {
                    old(self).data_deadline_ms
                })
                &&& (tag_of(d@) == Tag::Pong <==> ev is Pong)
                &&& (tag_of(d@) == Tag::Ping || tag_of(d@) == Tag::Unknown <==> ev is UnknownTag)
                &&& (tag_of(d@) == Tag::Data <==> (ev is Quotes || ev is Undecodable))
            },
            ev matches ReceiveEvent::Quotes { quotes, count_mismatch, unexpected } ==> {
                &&& encodable(records(quotes@))
                &&& wire_quotes(records(quotes@)).is_prefix_of(payload_of(d@))
                &&& count_mismatch == (quotes@.len() != old(self).tickers@.len())
                &&& string_views(unexpected@) == unexpected_tickers(
                    records(quotes@),
                    string_views(old(self).tickers@),
                )
            },
            ev is Undecodable ==> forall|q: Seq<QuoteRecord>|
                encodable(q) ==> !(#[trigger] wire_quotes(q)).is_prefix_of(payload_of(d@)),
            forall|q: Seq<QuoteRecord>|
                encodable(q) && source_host@ == old(self).server_host@ && d@ == data_tag()
                    + #[trigger] wire_quotes(q) ==> (ev matches ReceiveEvent::Quotes { quotes, .. }
                    && records(quotes@) == q),
    {
        proof {
            assert forall|q: Seq<QuoteRecord>| d@ == data_tag() + #[trigger] wire_quotes(q) implies (
            tag_of(d@) == Tag::Data && payload_of(d@) == wire_quotes(q)
                && wire_quotes(q).is_prefix_of(payload_of(d@))) by {
                assert(d@.subrange(0, 4) =~= data_tag());
                assert(payload_of(d@) =~= wire_quotes(q));
                assert(wire_quotes(q).subrange(0, wire_quotes(q).len() as int) =~= wire_quotes(q));
            }
        }
        if !source_host.eq(&self.server_host) {
            return ReceiveEvent::ForeignHost;
        }
        if self.server_endpoint.is_none() {
            self.server_endpoint = Some(source_addr.clone());
        }
        match classify(d) {
            Tag::Pong => {
                self.awaiting_pong = false;
                ReceiveEvent::Pong
            },
            Tag::Data => {
                self.data_deadline_ms = later_exec(now_ms, QUOTES_WAIT_PERIOD_MS);
                match decode_data_datagram(d) {
                    None => ReceiveEvent::Undecodable,
                    Some(quotes) => {
                        proof {
                            assert forall|q: Seq<QuoteRecord>|
                                encodable(q) && d@ == data_tag() + #[trigger] wire_quotes(
                                    q,
                                ) implies records(quotes@) == q by {
                                lemma_round_trip(q, records(quotes@));
                            }
                        }
                        let count_mismatch = quotes.len() != self.tickers.len();
                        let unexpected = self.unexpected_in(&quotes);
                        ReceiveEvent::Quotes { quotes, count_mismatch, unexpected }
                    },
                }
            },
            _ => ReceiveEvent::UnknownTag,
        }
    }

    /// The tickers of `quotes` that were not subscribed, in order.
    pub fn unexpected_in(&self, quotes: &Vec<StockQuote>) -> (r: Vec<String>)
        ensures
            string_views(r@) == unexpected_tickers(records(quotes@), string_views(self.tickers@)),
    {
        let ghost t = string_views(self.tickers@);
        let mut r: Vec<String> = Vec::new();
        let mut i: usize = 0;
        while i < quotes.len()
            invariant
                0 <= i <= quotes@.len(),
                t == string_views(self.tickers@),
                string_views(r@) == unexpected_tickers(
                    records(quotes@.subrange(0, i as int)),
                    t,
                ),
            decreases quotes@.len() - i,
        {
            let q = &quotes[i];
            let ghost prefix = quotes@.subrange(0, i + 1);
            assert(records(prefix).drop_last() =~= records(quotes@.subrange(0, i as int)));
            assert(records(prefix).last() == q@);
            if !contains_ticker(&self.tickers, &q.ticker) {
                let ghost before = r@;
                r.push(q.ticker.clone());
                assert(string_views(r@) =~= string_views(before).push(q.ticker@));
            }
            i = i + 1;
        }
        assert(quotes@.subrange(0, i as int) =~= quotes@);
        r
    }

    /// The idle check, when no datagram is waiting: at or past the deadline
    /// it tells to warn and moves the deadline one idle window on. Advisory only.
    pub fn on_idle(&mut self, now_ms: u64) -> (warn: bool)
        ensures
            warn == (now_ms >= old(self).data_deadline_ms),
            final(self).data_deadline_ms == (if warn {
                later(old(self).data_deadline_ms, QUOTES_WAIT_PERIOD_MS)
            } else {
                old(self).data_deadline_ms
            }),
            final(self).awaiting_pong == old(self).awaiting_pong,
            opt_view(final(self).server_endpoint) == opt_view(old(self).server_endpoint),
            final(self).server_host == old(self).server_host,
            final(self).tickers == old(self).tickers,
    {
        if now_ms >= self.data_deadline_ms {
            self.data_deadline_ms = later_exec(self.data_deadline_ms, QUOTES_WAIT_PERIOD_MS);
            true
        } else {
            false
        }
    }
}

/// What the heartbeat sender does on one tick.
#[derive(PartialEq, Eq, Structural, Debug, Clone, Copy)]
pub enum HeartbeatAction {
    /// The shutdown flag is set: end the sender.
    Exit,
    /// The server's endpoint is not known yet: sleep one period and look again.
    Wait,
    /// Too many probes went unanswered: set the shutdown flag.
    Shutdown,
    /// Send a probe to the server's endpoint, mark it awaited, sleep one period.
    SendPing,
}

/// One tick of the heartbeat sender: the new count of consecutive
/// unanswered probes, and the action.
pub open spec fn heartbeat_next(misses: u16, shutdown: bool, endpoint_known: bool, awaiting_pong: bool) -> (
    u16,
    HeartbeatAction,
) {
    if shutdown {
        (misses, HeartbeatAction::Exit)
    } else if !endpoint_known {
        (misses, HeartbeatAction::Wait)
    } else {
        let m: u16 = if !awaiting_pong {
            0
        } else if misses < u16::MAX {
            (misses + 1) as u16
        } else {
            misses
        };
        (
            m,
            if m >= MAX_NUMBER_IGNORED_PING {
                HeartbeatAction::Shutdown
            } else {
                HeartbeatAction::SendPing
            },
        )
    }
}

/// State of the client's heartbeat sender.
pub struct HeartbeatState {
    /// Consecutive probes found unanswered.
    pub misses: u16,
}

impl HeartbeatState {
    /// A sender that has missed nothing.
    pub fn new() -> (r: HeartbeatState)
        ensures
            r.misses == 0,
    {
        HeartbeatState { misses: 0 }
    }

    /// Decides one tick from the shutdown flag, whether the server's endpoint
    /// is latched, and whether the last probe is still unanswered.
    pub fn step(&mut self, shutdown: bool, endpoint_known: bool, awaiting_pong: bool) -> (a:
        HeartbeatAction)
        ensures
            (final(self).misses, a) == heartbeat_next(
                old(self).misses,
                shutdown,
                endpoint_known,
                awaiting_pong,
            ),
    {
        if shutdown {
            return HeartbeatAction::Exit;
        }
        if !endpoint_known {
            return HeartbeatAction::Wait;
        }
        if !awaiting_pong {
            self.misses = 0;
        } else if self.misses < u16::MAX {
            self.misses = self.misses + 1;
        }
        if self.misses >= MAX_NUMBER_IGNORED_PING {
            HeartbeatAction::Shutdown
        } else {
            HeartbeatAction::SendPing
        }
    }
}

/// Three probes in a row left unanswered force shutdown: from a sender that
/// has missed nothing, with the endpoint known and no shutdown yet, three
/// ticks that each find the last probe unanswered send two more probes and
/// then shut down; and a tick that finds its probe answered starts the count
/// afresh, so no shutdown comes before three in a row.
pub proof fn lemma_three_unanswered_probes(m: u16)
    ensures
        heartbeat_next(0, false, true, true) == (1u16, HeartbeatAction::SendPing),
        heartbeat_next(1, false, true, true) == (2u16, HeartbeatAction::SendPing),
        heartbeat_next(2, false, true, true) == (3u16, HeartbeatAction::Shutdown),
        heartbeat_next(m, false, true, false) == (0u16, HeartbeatAction::SendPing),
        heartbeat_next(m, false, true, true).1 == HeartbeatAction::Shutdown ==> m >= 2,
        heartbeat_next(m, true, true, true).1 == HeartbeatAction::Exit,
{
}

} // verus!
