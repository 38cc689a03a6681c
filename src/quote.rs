//! The quote record and its text form.
use vstd::prelude::*;
use vstd::utf8::encode_utf8;

verus! {

/// One ticker's quote: price in hundredths, volume, and a timestamp in
/// milliseconds since the epoch.
#[derive(Debug, Clone)]
pub struct StockQuote {
    pub ticker: String,
    pub price: u32,
    pub volume: u32,
    pub timestamp: i64,
}

/// What a quote holds, as plain values: ticker, price, volume, timestamp.
pub type QuoteRecord = (Seq<char>, u32, u32, i64);

impl View for StockQuote {
    type V = QuoteRecord;

    open spec fn view(&self) -> QuoteRecord {
        (self.ticker@, self.price, self.volume, self.timestamp)
    }
}

/// The records of a sequence of quotes, in order.
pub open spec fn records(qs: Seq<StockQuote>) -> Seq<QuoteRecord> {
    qs.map_values(|q: StockQuote| q@)
}

/// ASCII decimal digits of `n`, most significant first, without leading zeros.
pub open spec fn decimal(n: nat) -> Seq<u8>
    decreases n,
{
    if n < 10 {
        seq![(48 + n) as u8]
    } else {
        decimal(n / 10).push((48 + n % 10) as u8)
    }
}

/// ASCII decimal form of `n`, with a leading `-` when negative.
pub open spec fn signed_decimal(n: int) -> Seq<u8> {
    if n < 0 {
        seq![45u8] + decimal((-n) as nat)
    } else {
        decimal(n as nat)
    }
}

/// The text line `ticker|price|volume|timestamp`, as bytes.
pub open spec fn pipe_line(r: QuoteRecord) -> Seq<u8> {
    encode_utf8(r.0) + seq![124u8] + decimal(r.1 as nat) + seq![124u8] + decimal(r.2 as nat)
        + seq![124u8] + signed_decimal(r.3 as int)
}

/// Appends the decimal digits of `n` to `out`.
pub(crate) fn push_decimal(out: &mut Vec<u8>, n: u64)
    ensures
        final(out)@ == old(out)@ + decimal(n as nat),
    decreases n,
{
    if n >= 10 {
        push_decimal(out, n / 10);
    }
    out.push(48 + (n % 10) as u8);
    assert(final(out)@ =~= old(out)@ + decimal(n as nat));
}

/// Appends all of `b` to `out`.
pub(crate) fn push_bytes(out: &mut Vec<u8>, b: &[u8])
    ensures
        final(out)@ == old(out)@ + b@,
{
    let mut i: usize = 0;
    while i < b.len()
        invariant
            0 <= i <= b@.len(),
            out@ == old(out)@ + b@.subrange(0, i as int),
        decreases b@.len() - i,
    {
        out.push(b[i]);
        i = i + 1;
        assert(out@ =~= old(out)@ + b@.subrange(0, i as int));
    }
    assert(b@.subrange(0, i as int) =~= b@);
}

impl StockQuote {
    /// The quote as the text line `ticker|price|volume|timestamp`, with
    /// every number in plain decimal.
    pub fn to_bytes(&self) -> (r: Vec<u8>)
        ensures
            r@ == pipe_line(self@),
    {
        let mut bytes: Vec<u8> = Vec::new();
        push_bytes(&mut bytes, self.ticker.as_str().as_bytes());
        bytes.push(124);
        push_decimal(&mut bytes, self.price as u64);
        bytes.push(124);
        push_decimal(&mut bytes, self.volume as u64);
        bytes.push(124);
        if self.timestamp < 0 {
            bytes.push(45);
            let magnitude: u64 = ((-(self.timestamp + 1)) as u64) + 1;
            push_decimal(&mut bytes, magnitude);
        } else {
            push_decimal(&mut bytes, self.timestamp as u64);
        }
        assert(bytes@ =~= pipe_line(self@));
        bytes
    }
}

} // verus!
