//! The quote's text forms: the display line with the price in units and
//! hundredths, and the parser of `ticker|price|volume|timestamp` lines.
use vstd::prelude::*;
use crate::errors::ErrType;
use crate::quote::{StockQuote, QuoteRecord, decimal, signed_decimal, push_decimal, pipe_line};
use vstd::utf8::{encode_utf8, encode_utf8_decode_utf8, is_ascii_chars, is_ascii_chars_encode_utf8};
use crate::request::{digits_value, is_digit, lemma_digits_monotone, str_chars, string_from_chars};

verus! {

/// ASCII bytes read as characters.
pub open spec fn ascii_chars(b: Seq<u8>) -> Seq<char> {
    b.map_values(|x: u8| x as char)
}

/// Two decimal digits of `n < 100`, with a leading zero.
pub open spec fn two_digits(n: nat) -> Seq<u8> {
    seq![(48 + n / 10) as u8, (48 + n % 10) as u8]
}

/// The display line `ticker|units.hundredths|volume|timestamp`.
pub open spec fn display_line(r: QuoteRecord) -> Seq<char> {
    r.0 + seq!['|'] + ascii_chars(decimal((r.1 / 100) as nat)) + seq!['.'] + ascii_chars(
        two_digits((r.1 % 100) as nat),
    ) + seq!['|'] + ascii_chars(decimal(r.2 as nat)) + seq!['|'] + ascii_chars(
        signed_decimal(r.3 as int),
    )
}

fn push_ascii(out: &mut Vec<char>, b: &Vec<u8>)
    ensures
        final(out)@ == old(out)@ + ascii_chars(b@),
{
    let mut i: usize = 0;
    while i < b.len()
        invariant
            0 <= i <= b@.len(),
            out@ == old(out)@ + ascii_chars(b@.subrange(0, i as int)),
        decreases b@.len() - i,
    {
        out.push(b[i] as char);
        i = i + 1;
        assert(out@ =~= old(out)@ + ascii_chars(b@.subrange(0, i as int)));
    }
    assert(b@.subrange(0, i as int) =~= b@);
}

impl StockQuote {
    /// The quote for display: `ticker|units.hundredths|volume|timestamp`,
    /// the price written with two decimals (`12345` as `123.45`).
    pub fn to_display_string(&self) -> (r: String)
        ensures
            r@ == display_line(self@),
    {
        let mut out = str_chars(self.ticker.as_str());
        out.push('|');
        let mut digits: Vec<u8> = Vec::new();
        push_decimal(&mut digits, (self.price / 100) as u64);
        assert(digits@ =~= decimal((self.price / 100) as nat));
        push_ascii(&mut out, &digits);
        out.push('.');
        let cents = self.price % 100;
        let pair: Vec<u8> = vec![48 + (cents / 10) as u8, 48 + (cents % 10) as u8];
        assert(pair@ =~= two_digits(cents as nat));
        push_ascii(&mut out, &pair);
        out.push('|');
        let mut volume: Vec<u8> = Vec::new();
        push_decimal(&mut volume, self.volume as u64);
        assert(volume@ =~= decimal(self.volume as nat));
        push_ascii(&mut out, &volume);
        out.push('|');
        let mut stamp: Vec<u8> = Vec::new();
        if self.timestamp < 0 {
            stamp.push(45);
            let magnitude: u64 = ((-(self.timestamp + 1)) as u64) + 1;
            push_decimal(&mut stamp, magnitude);
        } else {
            push_decimal(&mut stamp, self.timestamp as u64);
        }
        assert(stamp@ =~= signed_decimal(self.timestamp as int));
        push_ascii(&mut out, &stamp);
        assert(out@ =~= display_line(self@));
        string_from_chars(&out)
    }
}

/// The pieces of `s` between occurrences of `sep`, empty ones included;
/// there is always at least one.
pub open spec fn pieces(s: Seq<char>, sep: char) -> Seq<Seq<char>>
    decreases s.len(),
{
    if s.len() == 0 {
        seq![Seq::<char>::empty()]
    } else {
        let p = pieces(s.drop_last(), sep);
        if s.last() == sep {
            p.push(Seq::<char>::empty())
        } else {
            p.update(p.len() - 1, p.last().push(s.last()))
        }
    }
}

/// `s` without its dots.
pub open spec fn without_dots(s: Seq<char>) -> Seq<char>
    decreases s.len(),
{
    if s.len() == 0 {
        s
    } else if s.last() == '.' {
        without_dots(s.drop_last())
    } else {
        without_dots(s.drop_last()).push(s.last())
    }
}

/// One or more decimal digits.
pub open spec fn all_digits(d: Seq<char>) -> bool {
    d.len() > 0 && forall|i: int| 0 <= i < d.len() ==> is_digit(#[trigger] d[i])
}

/// The value of an unsigned integer text: an optional `+`, then digits.
pub open spec fn unsigned_value(t: Seq<char>) -> Option<nat> {
    let d = if t.len() > 0 && t[0] == '+' {
        t.drop_first()
    } else {
        t
    };
    if all_digits(d) {
        Some(digits_value(d))
    } else {
        None
    }
}

/// The value of a signed integer text: an optional `+` or `-`, then digits.
pub open spec fn signed_value(t: Seq<char>) -> Option<int> {
    if t.len() > 0 && t[0] == '-' {
        if all_digits(t.drop_first()) {
            Some(-digits_value(t.drop_first()))
        } else {
            None
        }
    } else {
        match unsigned_value(t) {
            Some(v) => Some(v as int),
            None => None,
        }
    }
}

/// A text that reads as a `u32`.
pub open spec fn u32_text(t: Seq<char>) -> bool {
    unsigned_value(t) is Some && unsigned_value(t)->Some_0 <= u32::MAX
}

/// A text that reads as an `i64`.
pub open spec fn i64_text(t: Seq<char>) -> bool {
    signed_value(t) is Some && i64::MIN <= signed_value(t)->Some_0 <= i64::MAX
}

/// What a quote line reads as: `None` unless it has exactly four `|`-separated
/// fields; then the record, or `None` inside where a number does not read.
/// Dots in the price field are ignored, so `123.45` reads as `12345`.
pub open spec fn quote_line_value(s: Seq<char>) -> Option<Option<QuoteRecord>> {
    let p = pieces(s, '|');
    if p.len() != 4 {
        None
    } else if u32_text(without_dots(p[1])) && u32_text(p[2]) && i64_text(p[3]) {
        Some(
            Some(
                (
                    p[0],
                    unsigned_value(without_dots(p[1]))->Some_0 as u32,
                    unsigned_value(p[2])->Some_0 as u32,
                    signed_value(p[3])->Some_0 as i64,
                ),
            ),
        )
    } else {
        Some(None)
    }
}

fn split_pieces(s: &Vec<char>, sep: char) -> (r: Vec<Vec<char>>)
    ensures
        r@.len() == pieces(s@, sep).len(),
        forall|i: int| 0 <= i < r@.len() ==> (#[trigger] r@[i])@ == pieces(s@, sep)[i],
{
    let mut out: Vec<Vec<char>> = Vec::new();
    let mut cur: Vec<char> = Vec::new();
    let mut i: usize = 0;
    while i < s.len()
        invariant
            0 <= i <= s@.len(),
            out@.len() + 1 == pieces(s@.subrange(0, i as int), sep).len(),
            forall|j: int| 0 <= j < out@.len() ==> (#[trigger] out@[j])@ == pieces(
                s@.subrange(0, i as int),
                sep,
            )[j],
            cur@ == pieces(s@.subrange(0, i as int), sep).last(),
        decreases s@.len() - i,
    {
        let c = s[i];
        assert(s@.subrange(0, i + 1).drop_last() =~= s@.subrange(0, i as int));
        if c == sep {
            out.push(cur);
            cur = Vec::new();
            assert(cur@ =~= Seq::<char>::empty());
        } else {
            cur.push(c);
        }
        i = i + 1;
    }
    assert(s@.subrange(0, i as int) =~= s@);
    out.push(cur);
    out
}

fn strip_dots(s: &Vec<char>) -> (r: Vec<char>)
    ensures
        r@ == without_dots(s@),
{
    let mut r: Vec<char> = Vec::new();
    let mut i: usize = 0;
    while i < s.len()
        invariant
            0 <= i <= s@.len(),
            r@ == without_dots(s@.subrange(0, i as int)),
        decreases s@.len() - i,
    {
        assert(s@.subrange(0, i + 1).drop_last() =~= s@.subrange(0, i as int));
        if s[i] != '.' {
            r.push(s[i]);
        }
        i = i + 1;
    }
    assert(s@.subrange(0, i as int) =~= s@);
    r
}

/// Reads the digits of `t` from `from` on: `Some` exactly when they are one
/// or more digits writing a number up to `max`.
fn read_digits(t: &Vec<char>, from: usize, max: u64) -> (r: Option<u64>)
    requires
        from <= t@.len(),
    ensures
        r is Some <==> (all_digits(t@.subrange(from as int, t@.len() as int)) && digits_value(
            t@.subrange(from as int, t@.len() as int),
        ) <= max),
        r is Some ==> r->Some_0 as nat == digits_value(t@.subrange(from as int, t@.len() as int)),
{
    let ghost d = t@.subrange(from as int, t@.len() as int);
    if from == t.len() {
        return None;
    }
    let mut value: u128 = 0;
    let mut i: usize = from;
    while i < t.len()
        invariant
            from <= i <= t@.len(),
            d == t@.subrange(from as int, t@.len() as int),
            value as nat == digits_value(d.subrange(0, i - from)),
            value <= max,
            forall|j: int| 0 <= j < i - from ==> is_digit(#[trigger] d[j]),
        decreases t@.len() - i,
    {
        let c = t[i];
        if !('0' <= c && c <= '9') {
            assert(d[i - from] == c);
            return None;
        }
        assert(d.subrange(0, i - from + 1).drop_last() =~= d.subrange(0, i - from));
        value = value * 10 + (c as u32 - 48) as u128;
        i = i + 1;
        if value > max as u128 {
            proof {
                lemma_digits_monotone(d, i - from, d.len() as int);
                assert(d.subrange(0, d.len() as int) =~= d);
            }
            return None;
        }
    }
    assert(d.subrange(0, i - from) =~= d);
    Some(value as u64)
}

/// Reads a `u32` the way `str::parse` does: optional `+`, then digits.
pub fn parse_u32(t: &Vec<char>) -> (r: Option<u32>)
    ensures
        r is Some <==> u32_text(t@),
        r is Some ==> r->Some_0 as nat == unsigned_value(t@)->Some_0,
{
    let from: usize = if t.len() > 0 && t[0] == '+' {
        1
    } else {
        0
    };
    assert(t@.subrange(from as int, t@.len() as int) =~= (if t@.len() > 0 && t@[0] == '+' {
        t@.drop_first()
    } else {
        t@
    }));
    match read_digits(t, from, 4294967295) {
        Some(v) => Some(v as u32),
        None => None,
    }
}

/// Reads an `i64` the way `str::parse` does: optional `+` or `-`, then digits.
pub fn parse_i64(t: &Vec<char>) -> (r: Option<i64>)
    ensures
        r is Some <==> i64_text(t@),
        r is Some ==> r->Some_0 as int == signed_value(t@)->Some_0,
{
    if t.len() > 0 && t[0] == '-' {
        assert(t@.subrange(1, t@.len() as int) =~= t@.drop_first());
        match read_digits(t, 1, 9223372036854775808) {
            Some(v) => {
                if v == 9223372036854775808 {
                    Some(i64::MIN)
                } else {
                    Some(-(v as i64))
                }
            },
            None => None,
        }
    } else {
        let from: usize = if t.len() > 0 && t[0] == '+' {
            1
        } else {
            0
        };
        assert(t@.subrange(from as int, t@.len() as int) =~= (if t@.len() > 0 && t@[0] == '+' {
            t@.drop_first()
        } else {
            t@
        }));
        match read_digits(t, from, 9223372036854775807) {
            Some(v) => Some(v as i64),
            None => None,
        }
    }
}

impl StockQuote {
    /// Reads a quote line `ticker|price|volume|timestamp`. A line without
    /// exactly four fields is `NotSupported`; a number that does not read is
    /// a `ParseError`. Dots in the price are ignored.
    pub fn parse(s: &str) -> (r: Result<StockQuote, ErrType>)
        ensures
            match quote_line_value(s@) {
                None => r matches Err(ErrType::NotSupported(_)),
                Some(None) => r matches Err(ErrType::ParseError(_)),
                Some(Some(v)) => r is Ok && r->Ok_0@ == v,
            },
    {
        let chars = str_chars(s);
        let parts = split_pieces(&chars, '|');
        if parts.len() != 4 {
            return Err(ErrType::NotSupported("a quote line has four fields".to_owned()));
        }
        let price_text = strip_dots(&parts[1]);
        let price = parse_u32(&price_text);
        let volume = parse_u32(&parts[2]);
        let timestamp = parse_i64(&parts[3]);
        match (price, volume, timestamp) {
            (Some(price), Some(volume), Some(timestamp)) => Ok(
                StockQuote { ticker: string_from_chars(&parts[0]), price, volume, timestamp },
            ),
            _ => Err(ErrType::ParseError("a number of the quote line does not read".to_owned())),
        }
    }
}

impl std::str::FromStr for StockQuote {
    type Err = ErrType;

    /// Reads a quote line, exactly as [`StockQuote::parse`] does.
    fn from_str(s: &str) -> (r: Result<StockQuote, ErrType>)
        ensures
            match quote_line_value(s@) {
                None => r matches Err(ErrType::NotSupported(_)),
                Some(None) => r matches Err(ErrType::ParseError(_)),
                Some(Some(v)) => r is Ok && r->Ok_0@ == v,
            },
    {
        StockQuote::parse(s)
    }
}

proof fn lemma_pieces_len(s: Seq<char>, sep: char)
    ensures
        pieces(s, sep).len() >= 1,
    decreases s.len(),
{
    if s.len() > 0 {
        lemma_pieces_len(s.drop_last(), sep);
    }
}

proof fn lemma_pieces_single(a: Seq<char>, sep: char)
    requires
        !a.contains(sep),
    ensures
        pieces(a, sep) == seq![a],
    decreases a.len(),
{
    if a.len() > 0 {
        assert(!a.drop_last().contains(sep)) by {
            if a.drop_last().contains(sep) {
                let k = choose|k: int| 0 <= k < a.drop_last().len() && a.drop_last()[k] == sep;
                assert(a[k] == sep);
            }
        }
        lemma_pieces_single(a.drop_last(), sep);
        assert(a[a.len() - 1] != sep);
        assert(a.drop_last().push(a.last()) =~= a);
        assert(pieces(a, sep) =~= seq![a]);
    } else {
        assert(a =~= Seq::<char>::empty());
    }
}

proof fn lemma_pieces_join(a: Seq<char>, b: Seq<char>, sep: char)
    ensures
        pieces(a + seq![sep] + b, sep) == pieces(a, sep) + pieces(b, sep),
    decreases b.len(),
{
    let x = a + seq![sep] + b;
    if b.len() == 0 {
        assert(x.drop_last() =~= a);
        assert(pieces(x, sep) =~= pieces(a, sep) + pieces(b, sep));
    } else {
        assert(x.drop_last() =~= a + seq![sep] + b.drop_last());
        lemma_pieces_join(a, b.drop_last(), sep);
        lemma_pieces_len(b.drop_last(), sep);
        lemma_pieces_len(a, sep);
        assert(x.last() == b.last());
        assert(pieces(x, sep) =~= pieces(a, sep) + pieces(b, sep));
    }
}

proof fn lemma_decimal_digits(n: nat)
    ensures
        forall|i: int| 0 <= i < decimal(n).len() ==> 48 <= #[trigger] decimal(n)[i] <= 57,
        decimal(n).len() > 0,
    decreases n,
{
    if n >= 10 {
        lemma_decimal_digits(n / 10);
    }
}

proof fn lemma_ascii_push(b: Seq<u8>, x: u8)
    ensures
        ascii_chars(b.push(x)) == ascii_chars(b).push(x as char),
{
    assert(ascii_chars(b.push(x)) =~= ascii_chars(b).push(x as char));
}

proof fn lemma_decimal_value(n: nat)
    ensures
        all_digits(ascii_chars(decimal(n))),
        digits_value(ascii_chars(decimal(n))) == n,
    decreases n,
{
    lemma_decimal_digits(n);
    if n >= 10 {
        lemma_decimal_value(n / 10);
        let last = (48 + n % 10) as u8;
        lemma_ascii_push(decimal(n / 10), last);
        assert(ascii_chars(decimal(n)).drop_last() =~= ascii_chars(decimal(n / 10)));
        assert(ascii_chars(decimal(n)).last() == last as char);
        assert((last as char) as nat == 48 + n % 10);
        assert(digits_value(ascii_chars(decimal(n))) == 10 * digits_value(
            ascii_chars(decimal(n / 10)),
        ) + n % 10);
    } else {
        let c = ((48 + n) as u8) as char;
        assert(ascii_chars(decimal(n)) =~= seq![c]);
        assert(seq![c].drop_last() =~= Seq::<char>::empty());
        assert(c as nat == 48 + n);
        assert(digits_value(Seq::<char>::empty()) == 0);
        assert(digits_value(seq![c]) == 10 * digits_value(seq![c].drop_last()) + (c as nat
            - 48) as nat);
    }
    assert forall|i: int| 0 <= i < ascii_chars(decimal(n)).len() implies is_digit(
        #[trigger] ascii_chars(decimal(n))[i],
    ) by {
        assert(48 <= decimal(n)[i] <= 57);
    }
}

proof fn lemma_no_dots_in_digits(d: Seq<char>)
    requires
        forall|i: int| 0 <= i < d.len() ==> is_digit(#[trigger] d[i]),
    ensures
        without_dots(d) == d,
        !d.contains('|'),
        !d.contains('.'),
    decreases d.len(),
{
    if d.len() > 0 {
        assert(is_digit(d[d.len() - 1]));
        lemma_no_dots_in_digits(d.drop_last());
        assert(d.drop_last().push(d.last()) =~= d);
    }
    assert(!d.contains('|')) by {
        if d.contains('|') {
            let k = choose|k: int| 0 <= k < d.len() && d[k] == '|';
            assert(is_digit(d[k]));
        }
    }
    assert(!d.contains('.')) by {
        if d.contains('.') {
            let k = choose|k: int| 0 <= k < d.len() && d[k] == '.';
            assert(is_digit(d[k]));
        }
    }
}

proof fn lemma_without_dots_concat(a: Seq<char>, b: Seq<char>)
    ensures
        without_dots(a + b) == without_dots(a) + without_dots(b),
    decreases b.len(),
{
    if b.len() == 0 {
        assert(a + b =~= a);
        assert(without_dots(a) + without_dots(b) =~= without_dots(a));
    } else {
        assert((a + b).drop_last() =~= a + b.drop_last());
        lemma_without_dots_concat(a, b.drop_last());
        assert((a + b).last() == b.last());
        if b.last() != '.' {
            assert(without_dots(a + b) =~= without_dots(a) + without_dots(b));
        }
    }
}

proof fn lemma_price_text(p: u32)
    ensures
        ({
            let t = ascii_chars(decimal((p / 100) as nat)) + seq!['.'] + ascii_chars(
                two_digits((p % 100) as nat),
            );
            &&& !t.contains('|')
            &&& u32_text(without_dots(t))
            &&& unsigned_value(without_dots(t)) == Some(p as nat)
        }),
{
    let hi = ascii_chars(decimal((p / 100) as nat));
    let lo = ascii_chars(two_digits((p % 100) as nat));
    let t = hi + seq!['.'] + lo;
    lemma_decimal_value((p / 100) as nat);
    assert(forall|i: int| 0 <= i < lo.len() ==> is_digit(#[trigger] lo[i]));
    lemma_no_dots_in_digits(hi);
    lemma_no_dots_in_digits(lo);
    lemma_without_dots_concat(hi + seq!['.'], lo);
    lemma_without_dots_concat(hi, seq!['.']);
    assert(without_dots(seq!['.']) =~= Seq::<char>::empty()) by {
        assert(seq!['.'].drop_last() =~= Seq::<char>::empty());
        assert(seq!['.'].last() == '.');
        assert(without_dots(Seq::<char>::empty()) == Seq::<char>::empty());
    }
    let d = hi + lo;
    assert(without_dots(t) =~= d);
    assert(d.drop_last().drop_last() =~= hi);
    assert(d.drop_last().last() == lo[0]);
    assert(d.last() == lo[1]);
    assert(all_digits(d)) by {
        assert forall|i: int| 0 <= i < d.len() implies is_digit(#[trigger] d[i]) by {
            if i < hi.len() {
                assert(d[i] == hi[i]);
            } else {
                assert(d[i] == lo[i - hi.len()]);
            }
        }
    }
    assert(d[0] != '+') by {
        assert(d[0] == hi[0]);
    }
    let m = (p % 100) as nat;
    assert(lo[0] as nat == 48 + m / 10);
    assert(lo[1] as nat == 48 + m % 10);
    assert(digits_value(d.drop_last()) == 10 * digits_value(hi) + m / 10);
    assert(digits_value(d) == 10 * digits_value(d.drop_last()) + m % 10);
    assert(digits_value(d) == p as nat) by (nonlinear_arith)
        requires
            digits_value(d) == 10 * (10 * ((p / 100) as nat) + m / 10) + m % 10,
            m == p % 100,
    ;
    assert(!t.contains('|')) by {
        if t.contains('|') {
            let k = choose|k: int| 0 <= k < t.len() && t[k] == '|';
            if k < hi.len() {
                assert(t[k] == hi[k]);
            } else if k > hi.len() {
                assert(t[k] == lo[k - hi.len() - 1]);
            }
        }
    }
}

proof fn lemma_signed_text(v: i64)
    ensures
        !ascii_chars(signed_decimal(v as int)).contains('|'),
        i64_text(ascii_chars(signed_decimal(v as int))),
        signed_value(ascii_chars(signed_decimal(v as int))) == Some(v as int),
{
    let t = ascii_chars(signed_decimal(v as int));
    if v < 0 {
        let m = (-v) as nat;
        let d = ascii_chars(decimal(m));
        lemma_decimal_value(m);
        lemma_no_dots_in_digits(d);
        assert(t =~= seq!['-'] + d);
        assert(t.drop_first() =~= d);
        assert(!t.contains('|')) by {
            if t.contains('|') {
                let k = choose|k: int| 0 <= k < t.len() && t[k] == '|';
                if k > 0 {
                    assert(t[k] == d[k - 1]);
                }
            }
        }
    } else {
        let d = ascii_chars(decimal(v as nat));
        lemma_decimal_value(v as nat);
        lemma_no_dots_in_digits(d);
        assert(t == d);
        assert(is_digit(d[0]));
    }
}

/// Display, then parse: a quote whose ticker holds no `|` reads back from its
/// display line unchanged. Only the price's presentation differs from the
/// stored form (`123.45` for `12345`).
pub proof fn lemma_display_parses_back(r: QuoteRecord)
    requires
        !r.0.contains('|'),
    ensures
        quote_line_value(display_line(r)) == Some(Some(r)),
{
    let price = ascii_chars(decimal((r.1 / 100) as nat)) + seq!['.'] + ascii_chars(
        two_digits((r.1 % 100) as nat),
    );
    let volume = ascii_chars(decimal(r.2 as nat));
    let stamp = ascii_chars(signed_decimal(r.3 as int));
    lemma_price_text(r.1);
    lemma_decimal_value(r.2 as nat);
    lemma_no_dots_in_digits(volume);
    lemma_signed_text(r.3);
    let sep = seq!['|'];
    assert(display_line(r) =~= r.0 + sep + (price + sep + (volume + sep + stamp)));
    lemma_pieces_join(r.0, price + sep + (volume + sep + stamp), '|');
    lemma_pieces_join(price, volume + sep + stamp, '|');
    lemma_pieces_join(volume, stamp, '|');
    lemma_pieces_single(r.0, '|');
    lemma_pieces_single(price, '|');
    lemma_pieces_single(volume, '|');
    lemma_pieces_single(stamp, '|');
    let p = pieces(display_line(r), '|');
    assert(p =~= seq![r.0, price, volume, stamp]);
    assert(volume[0] != '+') by {
        assert(is_digit(volume[0]));
    }
}

proof fn lemma_encode_concat(a: Seq<char>, b: Seq<char>)
    ensures
        encode_utf8(a + b) == encode_utf8(a) + encode_utf8(b),
    decreases a.len(),
{
    if a.len() == 0 {
        assert(a + b =~= b);
        assert(encode_utf8(a) + encode_utf8(b) =~= encode_utf8(b));
    } else {
        assert((a + b).drop_first() =~= a.drop_first() + b);
        assert((a + b)[0] == a[0]);
        lemma_encode_concat(a.drop_first(), b);
        assert(encode_utf8(a + b) =~= encode_utf8(a) + encode_utf8(b));
    }
}

proof fn lemma_encode_ascii(b: Seq<u8>)
    requires
        forall|i: int| 0 <= i < b.len() ==> #[trigger] b[i] < 128,
    ensures
        encode_utf8(ascii_chars(b)) == b,
{
    let c = ascii_chars(b);
    assert forall|i: int| 0 <= i < c.len() implies '\0' <= #[trigger] c[i] <= '\u{7f}' by {
        assert(b[i] < 128);
    }
    assert(is_ascii_chars(c));
    is_ascii_chars_encode_utf8(c);
    assert forall|i: int| 0 <= i < b.len() implies #[trigger] encode_utf8(c)[i] == b[i] by {
        assert(c[i] as u8 == encode_utf8(c)[i]);
    }
    assert(encode_utf8(c) =~= b);
}

/// The stored line `ticker|price|volume|timestamp` as characters.
pub open spec fn stored_line(r: QuoteRecord) -> Seq<char> {
    r.0 + seq!['|'] + ascii_chars(decimal(r.1 as nat)) + seq!['|'] + ascii_chars(
        decimal(r.2 as nat),
    ) + seq!['|'] + ascii_chars(signed_decimal(r.3 as int))
}

proof fn lemma_signed_decimal_ascii(v: int)
    ensures
        forall|i: int| 0 <= i < signed_decimal(v).len() ==> #[trigger] signed_decimal(v)[i] < 128,
{
    if v < 0 {
        lemma_decimal_digits((-v) as nat);
        assert forall|i: int| 0 <= i < signed_decimal(v).len() implies #[trigger] signed_decimal(
            v,
        )[i] < 128 by {
            if i > 0 {
                assert(signed_decimal(v)[i] == decimal((-v) as nat)[i - 1]);
            }
        }
    } else {
        lemma_decimal_digits(v as nat);
    }
}

proof fn lemma_stored_line_encoding(r: QuoteRecord)
    ensures
        encode_utf8(stored_line(r)) == pipe_line(r),
{
    let bar = seq!['|'];
    let price = ascii_chars(decimal(r.1 as nat));
    let volume = ascii_chars(decimal(r.2 as nat));
    let stamp = ascii_chars(signed_decimal(r.3 as int));
    lemma_decimal_digits(r.1 as nat);
    lemma_decimal_digits(r.2 as nat);
    lemma_signed_decimal_ascii(r.3 as int);
    lemma_encode_ascii(decimal(r.1 as nat));
    lemma_encode_ascii(decimal(r.2 as nat));
    lemma_encode_ascii(signed_decimal(r.3 as int));
    lemma_encode_ascii(seq![124u8]);
    assert(ascii_chars(seq![124u8]) =~= bar);
    let line = stored_line(r);
    assert(line =~= r.0 + (bar + (price + (bar + (volume + (bar + stamp))))));
    lemma_encode_concat(bar, stamp);
    lemma_encode_concat(volume, bar + stamp);
    lemma_encode_concat(bar, volume + (bar + stamp));
    lemma_encode_concat(price, bar + (volume + (bar + stamp)));
    lemma_encode_concat(bar, price + (bar + (volume + (bar + stamp))));
    lemma_encode_concat(r.0, bar + (price + (bar + (volume + (bar + stamp)))));
    assert(encode_utf8(line) =~= pipe_line(r));
}

proof fn lemma_stored_line_value(r: QuoteRecord)
    requires
        !r.0.contains('|'),
    ensures
        quote_line_value(stored_line(r)) == Some(Some(r)),
{
    let bar = seq!['|'];
    let price = ascii_chars(decimal(r.1 as nat));
    let volume = ascii_chars(decimal(r.2 as nat));
    let stamp = ascii_chars(signed_decimal(r.3 as int));
    let line = stored_line(r);
    lemma_decimal_value(r.1 as nat);
    lemma_decimal_value(r.2 as nat);
    lemma_no_dots_in_digits(price);
    lemma_no_dots_in_digits(volume);
    lemma_signed_text(r.3);
    assert(line =~= r.0 + bar + (price + bar + (volume + bar + stamp)));
    lemma_pieces_join(r.0, price + bar + (volume + bar + stamp), '|');
    lemma_pieces_join(price, volume + bar + stamp, '|');
    lemma_pieces_join(volume, stamp, '|');
    lemma_pieces_single(r.0, '|');
    lemma_pieces_single(price, '|');
    lemma_pieces_single(volume, '|');
    lemma_pieces_single(stamp, '|');
    assert(pieces(line, '|') =~= seq![r.0, price, volume, stamp]);
    assert(price[0] != '+') by {
        assert(is_digit(price[0]));
    }
    assert(volume[0] != '+') by {
        assert(is_digit(volume[0]));
    }
}

/// Store, then parse: the characters whose UTF-8 bytes are a quote's stored
/// line (what `to_bytes` writes) read back as that quote, when its ticker
/// holds no `|`.
pub proof fn lemma_stored_line_parses_back(r: QuoteRecord, s: Seq<char>)
    requires
        !r.0.contains('|'),
        encode_utf8(s) == pipe_line(r),
    ensures
        quote_line_value(s) == Some(Some(r)),
{
    lemma_stored_line_encoding(r);
    encode_utf8_decode_utf8(s);
    encode_utf8_decode_utf8(stored_line(r));
    assert(s == stored_line(r));
    lemma_stored_line_value(r);
}

} // verus!
