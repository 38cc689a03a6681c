//! The data plane's datagrams: a 4-byte tag, then for `DATA` the quote
//! batch in bincode's fixed-width little-endian layout.
use vstd::prelude::*;
use vstd::utf8::{encode_utf8, encode_utf8_decode_utf8};
use crate::quote::{StockQuote, QuoteRecord, records, push_bytes};

verus! {

/// `256` to the power `k`.
pub open spec fn pow256(k: nat) -> nat
    decreases k,
{
    if k == 0 {
        1
    } else {
        256 * pow256((k - 1) as nat)
    }
}

/// `n` as `k` bytes, least significant first.
pub open spec fn le_bytes(n: nat, k: nat) -> Seq<u8>
    decreases k,
{
    if k == 0 {
        seq![]
    } else {
        seq![(n % 256) as u8] + le_bytes(n / 256, (k - 1) as nat)
    }
}

/// The 64 bits of `t` in two's complement, read as an unsigned number.
pub open spec fn i64_bits(t: i64) -> nat {
    if t < 0 {
        (t + 18446744073709551616int) as nat
    } else {
        t as nat
    }
}

/// One quote record: the ticker's UTF-8 length as 8 bytes and its bytes,
/// then price and volume as 4 bytes each and the timestamp as 8 bytes.
pub open spec fn wire_record(r: QuoteRecord) -> Seq<u8> {
    le_bytes(encode_utf8(r.0).len(), 8) + encode_utf8(r.0) + le_bytes(r.1 as nat, 4) + le_bytes(
        r.2 as nat,
        4,
    ) + le_bytes(i64_bits(r.3), 8)
}

/// The records one after the other.
pub open spec fn wire_items(s: Seq<QuoteRecord>) -> Seq<u8>
    decreases s.len(),
{
    if s.len() == 0 {
        seq![]
    } else {
        wire_record(s[0]) + wire_items(s.drop_first())
    }
}

/// A batch of records: their count as 8 bytes, then the records.
pub open spec fn wire_quotes(s: Seq<QuoteRecord>) -> Seq<u8> {
    le_bytes(s.len(), 8) + wire_items(s)
}

/// Every length in the batch fits the 8-byte length fields.
pub open spec fn encodable(s: Seq<QuoteRecord>) -> bool {
    &&& s.len() < pow256(8)
    &&& forall|i: int| 0 <= i < s.len() ==> #[trigger] encode_utf8(s[i].0).len() < pow256(8)
}

/// The records of a batch held as tuples.
pub open spec fn tuple_records(v: Seq<(String, u32, u32, i64)>) -> Seq<QuoteRecord> {
    v.map_values(|t: (String, u32, u32, i64)| (t.0@, t.1, t.2, t.3))
}

/// Relies on `bincode::serialize` (1.3): integers fixed-width little-endian,
/// a `u64` length before a sequence or a string, tuple fields in order. With
/// the default unlimited size and a sequence of known length it does not fail.
#[verifier::external_body]
fn bincode_encode(v: &Vec<(String, u32, u32, i64)>) -> (r: Option<Vec<u8>>)
    ensures
        r is Some,
        r is Some ==> r->Some_0@ == wire_quotes(tuple_records(v@)),
{
    bincode::serialize(v).ok()
}

/// Relies on `bincode::deserialize` (1.3), same layout: it reads one batch
/// from the front of `b`, allows trailing bytes, and fails only where no
/// batch's encoding begins `b`.
#[verifier::external_body]
fn bincode_decode(b: &[u8]) -> (r: Option<Vec<(String, u32, u32, i64)>>)
    ensures
        r is Some ==> encodable(tuple_records(r->Some_0@)) && wire_quotes(
            tuple_records(r->Some_0@),
        ).is_prefix_of(b@),
        r is None ==> forall|q: Seq<QuoteRecord>|
            encodable(q) ==> !(#[trigger] wire_quotes(q)).is_prefix_of(b@),
{
    bincode::deserialize(b).ok()
}

/// Encodes a batch of quotes.
pub fn encode_quotes(quotes: &Vec<StockQuote>) -> (r: Vec<u8>)
    ensures
        r@ == wire_quotes(records(quotes@)),
{
    let mut tuples: Vec<(String, u32, u32, i64)> = Vec::new();
    let mut i: usize = 0;
    while i < quotes.len()
        invariant
            0 <= i <= quotes@.len(),
            tuples@.len() == i,
            tuple_records(tuples@) =~= records(quotes@.subrange(0, i as int)),
        decreases quotes@.len() - i,
    {
        let q = &quotes[i];
        let ghost old_tuples = tuples@;
        let ticker = q.ticker.clone();
        assert(ticker@ == quotes@[i as int].ticker@);
        tuples.push((ticker, q.price, q.volume, q.timestamp));
        assert(quotes@.subrange(0, i + 1) =~= quotes@.subrange(0, i as int).push(quotes@[i as int]));
        i = i + 1;
        assert forall|j: int| 0 <= j < i implies #[trigger] tuple_records(tuples@)[j] == records(
            quotes@.subrange(0, i as int),
        )[j] by {
            if j < i - 1 {
                assert(tuples@[j] == old_tuples[j]);
                assert(tuple_records(old_tuples)[j] == records(quotes@.subrange(0, i - 1))[j]);
            }
        }
        assert(tuple_records(tuples@) =~= records(quotes@.subrange(0, i as int)));
    }
    assert(quotes@.subrange(0, i as int) =~= quotes@);
    match bincode_encode(&tuples) {
        Some(bytes) => bytes,
        None => {
            assert(false);
            Vec::new()
        },
    }
}

/// Decodes a batch of quotes from the front of `b`.
pub fn decode_quotes(b: &[u8]) -> (r: Option<Vec<StockQuote>>)
    ensures
        r is Some ==> encodable(records(r->Some_0@)) && wire_quotes(
            records(r->Some_0@),
        ).is_prefix_of(b@),
        r is None ==> forall|q: Seq<QuoteRecord>|
            encodable(q) ==> !(#[trigger] wire_quotes(q)).is_prefix_of(b@),
{
    match bincode_decode(b) {
        None => None,
        Some(tuples) => {
            let mut quotes: Vec<StockQuote> = Vec::new();
            let mut i: usize = 0;
            while i < tuples.len()
                invariant
                    0 <= i <= tuples@.len(),
                    quotes@.len() == i,
                    records(quotes@) =~= tuple_records(tuples@.subrange(0, i as int)),
                decreases tuples@.len() - i,
            {
                let t = &tuples[i];
                let ghost old_quotes = quotes@;
                let ticker = t.0.clone();
                assert(ticker@ == tuples@[i as int].0@);
                quotes.push(StockQuote { ticker, price: t.1, volume: t.2, timestamp: t.3 });
                assert(tuples@.subrange(0, i + 1) =~= tuples@.subrange(0, i as int).push(
                    tuples@[i as int],
                ));
                i = i + 1;
                assert forall|j: int| 0 <= j < i implies #[trigger] records(quotes@)[j]
                    == tuple_records(tuples@.subrange(0, i as int))[j] by {
                    if j < i - 1 {
                        assert(quotes@[j] == old_quotes[j]);
                        assert(records(old_quotes)[j] == tuple_records(
                            tuples@.subrange(0, i - 1),
                        )[j]);
                    }
                }
                assert(records(quotes@) =~= tuple_records(tuples@.subrange(0, i as int)));
            }
            assert(tuples@.subrange(0, i as int) =~= tuples@);
            Some(quotes)
        },
    }
}

/// What a datagram's first four bytes say it is.
#[derive(PartialEq, Eq, Structural, Debug, Clone, Copy)]
pub enum Tag {
    Data,
    Ping,
    Pong,
    Unknown,
}

/// `DATA` in ASCII.
pub open spec fn data_tag() -> Seq<u8> {
    seq![68u8, 65u8, 84u8, 65u8]
}

/// `PING` in ASCII.
pub open spec fn ping_tag() -> Seq<u8> {
    seq![80u8, 73u8, 78u8, 71u8]
}

/// `PONG` in ASCII.
pub open spec fn pong_tag() -> Seq<u8> {
    seq![80u8, 79u8, 78u8, 71u8]
}

/// The tag of datagram `d`; shorter than four bytes is unknown.
pub open spec fn tag_of(d: Seq<u8>) -> Tag {
    if d.len() >= 4 && d.subrange(0, 4) == data_tag() {
        Tag::Data
    } else if d.len() >= 4 && d.subrange(0, 4) == ping_tag() {
        Tag::Ping
    } else if d.len() >= 4 && d.subrange(0, 4) == pong_tag() {
        Tag::Pong
    } else {
        Tag::Unknown
    }
}

/// What follows the tag.
pub open spec fn payload_of(d: Seq<u8>) -> Seq<u8> {
    d.subrange(4, d.len() as int)
}

fn tag_is(d: &[u8], t0: u8, t1: u8, t2: u8, t3: u8) -> (r: bool)
    ensures
        r == (d@.len() >= 4 && d@.subrange(0, 4) == seq![t0, t1, t2, t3]),
{
    if d.len() < 4 {
        return false;
    }
    let r = d[0] == t0 && d[1] == t1 && d[2] == t2 && d[3] == t3;
    assert(r ==> d@.subrange(0, 4) =~= seq![t0, t1, t2, t3]);
    assert(d@.subrange(0, 4) == seq![t0, t1, t2, t3] ==> d@.subrange(0, 4)[1] == t1);
    r
}

/// Reads the tag of a datagram.
pub fn classify(d: &[u8]) -> (t: Tag)
    ensures
        t == tag_of(d@),
{
    if tag_is(d, 68, 65, 84, 65) {
        Tag::Data
    } else if tag_is(d, 80, 73, 78, 71) {
        Tag::Ping
    } else if tag_is(d, 80, 79, 78, 71) {
        Tag::Pong
    } else {
        Tag::Unknown
    }
}

/// The liveness probe: the tag `PING` and nothing else.
pub fn ping_datagram() -> (d: Vec<u8>)
    ensures
        d@ == ping_tag(),
{
    let d: Vec<u8> = vec![80, 73, 78, 71];
    assert(d@ =~= ping_tag());
    d
}

/// The answer to a probe: the tag `PONG` and nothing else.
pub fn pong_datagram() -> (d: Vec<u8>)
    ensures
        d@ == pong_tag(),
{
    let d: Vec<u8> = vec![80, 79, 78, 71];
    assert(d@ =~= pong_tag());
    d
}

/// The `DATA` datagram for a batch: the tag, then the encoded batch.
pub fn data_datagram(quotes: &Vec<StockQuote>) -> (r: Vec<u8>)
    ensures
        r@ == data_tag() + wire_quotes(records(quotes@)),
{
    let body = encode_quotes(quotes);
    let mut d: Vec<u8> = vec![68, 65, 84, 65];
    push_bytes(&mut d, body.as_slice());
    assert(d@ =~= data_tag() + wire_quotes(records(quotes@)));
    d
}

/// Decodes the batch that follows the tag of a `DATA` datagram.
pub fn decode_data_datagram(d: &[u8]) -> (r: Option<Vec<StockQuote>>)
    requires
        tag_of(d@) == Tag::Data,
    ensures
        r is Some ==> encodable(records(r->Some_0@)) && wire_quotes(
            records(r->Some_0@),
        ).is_prefix_of(payload_of(d@)),
        r is None ==> forall|q: Seq<QuoteRecord>|
            encodable(q) ==> !(#[trigger] wire_quotes(q)).is_prefix_of(payload_of(d@)),
{
    let mut payload: Vec<u8> = Vec::new();
    let mut i: usize = 4;
    while i < d.len()
        invariant
            4 <= i <= d@.len(),
            payload@ == d@.subrange(4, i as int),
        decreases d@.len() - i,
    {
        payload.push(d[i]);
        i = i + 1;
        assert(payload@ =~= d@.subrange(4, i as int));
    }
    decode_quotes(payload.as_slice())
}

proof fn lemma_pow256_values()
    ensures
        pow256(4) == 4294967296,
        pow256(8) == 18446744073709551616,
{
    assert(pow256(0) == 1);
    assert(pow256(1) == 256);
    assert(pow256(2) == 65536);
    assert(pow256(3) == 16777216);
    assert(pow256(4) == 4294967296);
    assert(pow256(5) == 1099511627776);
    assert(pow256(6) == 281474976710656);
    assert(pow256(7) == 72057594037927936);
    assert(pow256(8) == 18446744073709551616);
}

proof fn lemma_le_bytes_len(n: nat, k: nat)
    ensures
        le_bytes(n, k).len() == k,
    decreases k,
{
    if k > 0 {
        lemma_le_bytes_len(n / 256, (k - 1) as nat);
    }
}

proof fn lemma_le_bytes_injective(n: nat, m: nat, k: nat)
    requires
        n < pow256(k),
        m < pow256(k),
        le_bytes(n, k) == le_bytes(m, k),
    ensures
        n == m,
    decreases k,
{
    if k > 0 {
        let k1 = (k - 1) as nat;
        let p = pow256(k1);
        assert(le_bytes(n, k)[0] == le_bytes(m, k)[0]);
        assert(le_bytes(n, k)[0] == (n % 256) as u8);
        assert(le_bytes(m, k)[0] == (m % 256) as u8);
        assert(n % 256 == m % 256);
        assert(le_bytes(n / 256, k1) =~= le_bytes(n, k).drop_first());
        assert(le_bytes(m / 256, k1) =~= le_bytes(m, k).drop_first());
        assert(n / 256 < p) by (nonlinear_arith)
            requires
                n < 256 * p,
        ;
        assert(m / 256 < p) by (nonlinear_arith)
            requires
                m < 256 * p,
        ;
        lemma_le_bytes_injective(n / 256, m / 256, k1);
    }
}

proof fn lemma_split(x: Seq<u8>, y: Seq<u8>, x2: Seq<u8>, y2: Seq<u8>)
    requires
        x + y == x2 + y2,
        x.len() == x2.len(),
    ensures
        x == x2,
        y == y2,
{
    assert(x =~= (x + y).subrange(0, x.len() as int));
    assert(x2 =~= (x2 + y2).subrange(0, x.len() as int));
    assert(y =~= (x + y).subrange(x.len() as int, (x + y).len() as int));
    assert(y2 =~= (x2 + y2).subrange(x.len() as int, (x + y).len() as int));
}

proof fn lemma_record_unique(a: QuoteRecord, b: QuoteRecord, ra: Seq<u8>, rb: Seq<u8>)
    requires
        encode_utf8(a.0).len() < pow256(8),
        encode_utf8(b.0).len() < pow256(8),
        wire_record(a) + ra == wire_record(b) + rb,
    ensures
        a == b,
        ra == rb,
{
    let ua = encode_utf8(a.0);
    let ub = encode_utf8(b.0);
    let pa = le_bytes(a.1 as nat, 4);
    let pb = le_bytes(b.1 as nat, 4);
    let va = le_bytes(a.2 as nat, 4);
    let vb = le_bytes(b.2 as nat, 4);
    let ta = le_bytes(i64_bits(a.3), 8);
    let tb = le_bytes(i64_bits(b.3), 8);
    lemma_pow256_values();
    lemma_le_bytes_len(ua.len(), 8);
    lemma_le_bytes_len(ub.len(), 8);
    lemma_le_bytes_len(a.1 as nat, 4);
    lemma_le_bytes_len(b.1 as nat, 4);
    lemma_le_bytes_len(a.2 as nat, 4);
    lemma_le_bytes_len(b.2 as nat, 4);
    lemma_le_bytes_len(i64_bits(a.3), 8);
    lemma_le_bytes_len(i64_bits(b.3), 8);
    assert(wire_record(a) + ra =~= le_bytes(ua.len(), 8) + (ua + (pa + (va + (ta + ra)))));
    assert(wire_record(b) + rb =~= le_bytes(ub.len(), 8) + (ub + (pb + (vb + (tb + rb)))));
    lemma_split(le_bytes(ua.len(), 8), ua + (pa + (va + (ta + ra))), le_bytes(ub.len(), 8), ub + (
    pb + (vb + (tb + rb))));
    lemma_le_bytes_injective(ua.len(), ub.len(), 8);
    lemma_split(ua, pa + (va + (ta + ra)), ub, pb + (vb + (tb + rb)));
    encode_utf8_decode_utf8(a.0);
    encode_utf8_decode_utf8(b.0);
    lemma_split(pa, va + (ta + ra), pb, vb + (tb + rb));
    lemma_le_bytes_injective(a.1 as nat, b.1 as nat, 4);
    lemma_split(va, ta + ra, vb, tb + rb);
    lemma_le_bytes_injective(a.2 as nat, b.2 as nat, 4);
    lemma_split(ta, ra, tb, rb);
    lemma_le_bytes_injective(i64_bits(a.3), i64_bits(b.3), 8);
}

proof fn lemma_items_unique(a: Seq<QuoteRecord>, b: Seq<QuoteRecord>, ra: Seq<u8>, rb: Seq<u8>)
    requires
        a.len() == b.len(),
        forall|i: int| 0 <= i < a.len() ==> #[trigger] encode_utf8(a[i].0).len() < pow256(8),
        forall|i: int| 0 <= i < b.len() ==> #[trigger] encode_utf8(b[i].0).len() < pow256(8),
        wire_items(a) + ra == wire_items(b) + rb,
    ensures
        a == b,
        ra == rb,
    decreases a.len(),
{
    if a.len() == 0 {
        assert(a =~= b);
        assert(ra =~= wire_items(a) + ra);
        assert(rb =~= wire_items(b) + rb);
    } else {
        let a1 = a.drop_first();
        let b1 = b.drop_first();
        assert(wire_items(a) + ra =~= wire_record(a[0]) + (wire_items(a1) + ra));
        assert(wire_items(b) + rb =~= wire_record(b[0]) + (wire_items(b1) + rb));
        assert(encode_utf8(a[0].0).len() < pow256(8));
        assert(encode_utf8(b[0].0).len() < pow256(8));
        lemma_record_unique(a[0], b[0], wire_items(a1) + ra, wire_items(b1) + rb);
        assert forall|i: int| 0 <= i < a1.len() implies #[trigger] encode_utf8(a1[i].0).len()
            < pow256(8) by {
            assert(a1[i] == a[i + 1]);
        }
        assert forall|i: int| 0 <= i < b1.len() implies #[trigger] encode_utf8(b1[i].0).len()
            < pow256(8) by {
            assert(b1[i] == b[i + 1]);
        }
        lemma_items_unique(a1, b1, ra, rb);
        assert(a =~= seq![a[0]] + a1);
        assert(b =~= seq![b[0]] + b1);
    }
}

/// The batch layout is self-delimiting: where one encoded batch followed by
/// some bytes equals another followed by some bytes, the batches are equal and
/// so are the bytes that follow.
pub proof fn lemma_wire_unique(a: Seq<QuoteRecord>, b: Seq<QuoteRecord>, ra: Seq<u8>, rb: Seq<u8>)
    requires
        encodable(a),
        encodable(b),
        wire_quotes(a) + ra == wire_quotes(b) + rb,
    ensures
        a == b,
        ra == rb,
{
    lemma_le_bytes_len(a.len(), 8);
    lemma_le_bytes_len(b.len(), 8);
    assert(wire_quotes(a) + ra =~= le_bytes(a.len(), 8) + (wire_items(a) + ra));
    assert(wire_quotes(b) + rb =~= le_bytes(b.len(), 8) + (wire_items(b) + rb));
    lemma_split(le_bytes(a.len(), 8), wire_items(a) + ra, le_bytes(b.len(), 8), wire_items(b) + rb);
    lemma_le_bytes_injective(a.len(), b.len(), 8);
    lemma_items_unique(a, b, ra, rb);
}

/// Round trip: decoding the encoding of a batch gives that batch back. The
/// decoder's result is a batch whose encoding begins its input; on the
/// encoding of `q` that batch can only be `q`.
pub proof fn lemma_round_trip(q: Seq<QuoteRecord>, p: Seq<QuoteRecord>)
    requires
        encodable(q),
        encodable(p),
        wire_quotes(p).is_prefix_of(wire_quotes(q)),
    ensures
        p == q,
{
    let w = wire_quotes(q);
    let rest = w.subrange(wire_quotes(p).len() as int, w.len() as int);
    assert(wire_quotes(p) + rest =~= wire_quotes(q) + Seq::<u8>::empty());
    lemma_wire_unique(p, q, rest, Seq::<u8>::empty());
}

} // verus!
