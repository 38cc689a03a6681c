//! The control-plane request grammar:
//! `STREAM udp://<host>:<port> <ticker>[,<ticker>...]`.
use vstd::prelude::*;
use vstd::std_specs::iter::IteratorSpec;

verus! {

/// Characters that separate the request's words: Unicode `White_Space`.
pub open spec fn is_space(c: char) -> bool {
    let u = c as u32;
    ||| 9 <= u <= 13
    ||| u == 32
    ||| u == 0x85
    ||| u == 0xA0
    ||| u == 0x1680
    ||| 0x2000 <= u <= 0x200A
    ||| u == 0x2028
    ||| u == 0x2029
    ||| u == 0x202F
    ||| u == 0x205F
    ||| u == 0x3000
}

/// How a text is cut into fields.
#[derive(PartialEq, Eq, Structural, Debug, Clone, Copy)]
pub enum Separator {
    /// Runs of white space.
    Space,
    /// Commas.
    Comma,
}

/// Whether `c` separates fields under `sep`.
pub open spec fn separates(sep: Separator, c: char) -> bool {
    match sep {
        Separator::Space => is_space(c),
        Separator::Comma => c == ',',
    }
}

/// The non-empty maximal runs of non-separator characters of `s`, in order.
pub open spec fn fields(s: Seq<char>, sep: Separator) -> Seq<Seq<char>>
    decreases s.len(),
{
    if s.len() == 0 {
        seq![]
    } else {
        let w = fields(s.drop_last(), sep);
        let c = s.last();
        if separates(sep, c) {
            w
        } else if s.len() >= 2 && !separates(sep, s[s.len() - 2]) {
            w.update(w.len() - 1, w.last().push(c))
        } else {
            w.push(seq![c])
        }
    }
}

/// The views of a sequence of character vectors.
pub open spec fn char_views(v: Seq<Vec<char>>) -> Seq<Seq<char>> {
    v.map_values(|x: Vec<char>| x@)
}

/// The views of a sequence of strings.
pub open spec fn string_views(v: Seq<String>) -> Seq<Seq<char>> {
    v.map_values(|x: String| x@)
}

fn separates_exec(sep: Separator, c: char) -> (r: bool)
    ensures
        r == separates(sep, c),
{
    match sep {
        Separator::Comma => c == ',',
        Separator::Space => {
            let u = c as u32;
            (9 <= u && u <= 13) || u == 32 || u == 0x85 || u == 0xA0 || u == 0x1680 || (0x2000 <= u
                && u <= 0x200A) || u == 0x2028 || u == 0x2029 || u == 0x202F || u == 0x205F || u
                == 0x3000
        },
    }
}

/// Cuts `s` into its fields under `sep`.
pub fn split_fields(s: &Vec<char>, sep: Separator) -> (r: Vec<Vec<char>>)
    ensures
        char_views(r@) == fields(s@, sep),
{
    let mut out: Vec<Vec<char>> = Vec::new();
    let mut cur: Vec<char> = Vec::new();
    let mut in_field = false;
    let mut i: usize = 0;
    while i < s.len()
        invariant
            0 <= i <= s@.len(),
            in_field == (i > 0 && !separates(sep, s@[i - 1])),
            in_field ==> char_views(out@).push(cur@) == fields(s@.subrange(0, i as int), sep),
            !in_field ==> char_views(out@) == fields(s@.subrange(0, i as int), sep),
            !in_field ==> cur@.len() == 0,
        decreases s@.len() - i,
    {
        let c = s[i];
        let ghost before = s@.subrange(0, i as int);
        assert(s@.subrange(0, i + 1).drop_last() =~= before);
        if separates_exec(sep, c) {
            if in_field {
                let ghost old_out = out@;
                out.push(cur);
                assert(char_views(out@) =~= char_views(old_out).push(cur@));
                cur = Vec::new();
            }
            in_field = false;
        } else {
            if in_field {
                let ghost old_cur = cur@;
                cur.push(c);
                assert(char_views(out@).push(cur@) =~= char_views(out@).push(old_cur).update(
                    char_views(out@).len() as int,
                    old_cur.push(c),
                ));
            } else {
                cur.push(c);
                assert(cur@ =~= seq![c]);
            }
            in_field = true;
        }
        i = i + 1;
    }
    assert(s@.subrange(0, i as int) =~= s@);
    if in_field {
        let ghost old_out = out@;
        out.push(cur);
        assert(char_views(out@) =~= char_views(old_out).push(cur@));
    }
    out
}

/// The command word `STREAM`.
pub open spec fn stream_word() -> Seq<char> {
    seq!['S', 'T', 'R', 'E', 'A', 'M']
}

/// The address scheme `udp://`.
pub open spec fn udp_scheme() -> Seq<char> {
    seq!['u', 'd', 'p', ':', '/', '/']
}

/// An ASCII decimal digit.
pub open spec fn is_digit(c: char) -> bool {
    '0' <= c <= '9'
}

/// The number that a run of decimal digits writes.
pub open spec fn digits_value(s: Seq<char>) -> nat
    decreases s.len(),
{
    if s.len() == 0 {
        0
    } else {
        10 * digits_value(s.drop_last()) + (s.last() as nat - 48) as nat
    }
}

/// A port: one or more decimal digits writing a number up to 65535.
pub open spec fn is_port(t: Seq<char>) -> bool {
    &&& t.len() > 0
    &&& forall|i: int| 0 <= i < t.len() ==> is_digit(#[trigger] t[i])
    &&& digits_value(t) <= 65535
}

/// `r[k]` is a colon and the only one in `r`.
pub open spec fn single_colon_at(r: Seq<char>, k: int) -> bool {
    &&& 0 <= k < r.len()
    &&& r[k] == ':'
    &&& forall|j: int| 0 <= j < r.len() && j != k ==> #[trigger] r[j] != ':'
}

/// Why a request line was refused.
#[derive(PartialEq, Eq, Structural, Debug, Clone, Copy)]
pub enum RequestError {
    /// The first word is not `STREAM`, or the line is blank.
    UnknownCommand,
    /// No second word.
    MissingAddress,
    /// The second word does not start with `udp://`.
    NotUdp,
    /// What follows `udp://` is not a non-empty host, one colon, and a non-empty port.
    BadAddress,
    /// The port is not a decimal number up to 65535.
    BadPort,
    /// No third word, or it names no ticker.
    MissingTickers,
}

/// What a request line asks for: host, port text and ticker names; or why it is refused.
/// The checks run in order: command, address present, scheme, host and port, port value, tickers.
pub open spec fn request_outcome(line: Seq<char>) -> Result<
    (Seq<char>, Seq<char>, Seq<Seq<char>>),
    RequestError,
> {
    let w = fields(line, Separator::Space);
    if w.len() == 0 || w[0] != stream_word() {
        Err(RequestError::UnknownCommand)
    } else if w.len() < 2 {
        Err(RequestError::MissingAddress)
    } else if !udp_scheme().is_prefix_of(w[1]) {
        Err(RequestError::NotUdp)
    } else {
        let r = w[1].subrange(6, w[1].len() as int);
        if !(exists|k: int| single_colon_at(r, k)) {
            Err(RequestError::BadAddress)
        } else {
            let k = choose|k: int| single_colon_at(r, k);
            let host = r.subrange(0, k);
            let port = r.subrange(k + 1, r.len() as int);
            if host.len() == 0 || port.len() == 0 {
                Err(RequestError::BadAddress)
            } else if !is_port(port) {
                Err(RequestError::BadPort)
            } else if w.len() < 3 || fields(w[2], Separator::Comma).len() == 0 {
                Err(RequestError::MissingTickers)
            } else {
                Ok((host, port, fields(w[2], Separator::Comma)))
            }
        }
    }
}

/// A well-formed subscription request.
#[derive(Debug, Clone)]
pub struct StreamRequest {
    /// Host of the client's data-plane endpoint.
    pub host: String,
    /// Port of the client's data-plane endpoint.
    pub port: u16,
    /// `<host>:<port>`, the port as the request wrote it.
    pub address: String,
    /// The requested ticker names, in the order written.
    pub tickers: Vec<String>,
}

/// The characters of `s`, in order.
pub(crate) fn str_chars(s: &str) -> (r: Vec<char>)
    ensures
        r@ == s@,
{
    broadcast use vstd::string::axiom_spec_iter, vstd::string::next_postcondition;

    let mut it = s.chars();
    let mut r: Vec<char> = Vec::new();
    loop
        invariant
            r@ + it.remaining() == s@,
            it.decrease() is Some,
        ensures
            r@ == s@,
        decreases it.decrease()->0,
    {
        match it.next() {
            Some(c) => {
                r.push(c);
            },
            None => {
                assert(r@ =~= s@);
                break;
            },
        }
    }
    r
}

/// Relies on `String: FromIterator<char>`: the string of exactly these characters.
#[verifier::external_body]
pub(crate) fn string_from_chars(v: &Vec<char>) -> (r: String)
    ensures
        r@ == v@,
{
    v.iter().collect()
}

fn sub_chars(s: &Vec<char>, lo: usize, hi: usize) -> (r: Vec<char>)
    requires
        lo <= hi <= s@.len(),
    ensures
        r@ == s@.subrange(lo as int, hi as int),
{
    let mut r: Vec<char> = Vec::new();
    let mut i: usize = lo;
    while i < hi
        invariant
            lo <= i <= hi,
            hi <= s@.len(),
            r@ == s@.subrange(lo as int, i as int),
        decreases hi - i,
    {
        r.push(s[i]);
        i = i + 1;
        assert(r@ =~= s@.subrange(lo as int, i as int));
    }
    r
}

fn has_prefix(s: &Vec<char>, p: &Vec<char>) -> (r: bool)
    ensures
        r == p@.is_prefix_of(s@),
{
    if p.len() > s.len() {
        return false;
    }
    let mut i: usize = 0;
    while i < p.len()
        invariant
            p@.len() <= s@.len(),
            0 <= i <= p@.len(),
            forall|j: int| 0 <= j < i ==> s@[j] == p@[j],
        decreases p@.len() - i,
    {
        if s[i] != p[i] {
            assert(s@.subrange(0, p@.len() as int)[i as int] != p@[i as int]);
            return false;
        }
        i = i + 1;
    }
    assert(s@.subrange(0, p@.len() as int) =~= p@);
    true
}

pub(crate) proof fn lemma_digits_monotone(s: Seq<char>, i: int, j: int)
    requires
        0 <= i <= j <= s.len(),
    ensures
        digits_value(s.subrange(0, i)) <= digits_value(s.subrange(0, j)),
    decreases j - i,
{
    if i < j {
        lemma_digits_monotone(s, i, j - 1);
        assert(s.subrange(0, j).drop_last() =~= s.subrange(0, j - 1));
    }
}

/// Reads a port: `Some` exactly when `t` is one, with its value.
pub fn parse_port(t: &Vec<char>) -> (r: Option<u16>)
    ensures
        r is Some <==> is_port(t@),
        r is Some ==> r->Some_0 as nat == digits_value(t@),
{
    if t.len() == 0 {
        return None;
    }
    let mut value: u32 = 0;
    let mut i: usize = 0;
    while i < t.len()
        invariant
            0 <= i <= t@.len(),
            value as nat == digits_value(t@.subrange(0, i as int)),
            value <= 65535,
            forall|j: int| 0 <= j < i ==> is_digit(#[trigger] t@[j]),
        decreases t@.len() - i,
    {
        let c = t[i];
        if !('0' <= c && c <= '9') {
            return None;
        }
        assert(t@.subrange(0, i + 1).drop_last() =~= t@.subrange(0, i as int));
        value = value * 10 + (c as u32 - 48);
        i = i + 1;
        if value > 65535 {
            proof {
                lemma_digits_monotone(t@, i as int, t@.len() as int);
                assert(t@.subrange(0, t@.len() as int) =~= t@);
            }
            return None;
        }
    }
    assert(t@.subrange(0, i as int) =~= t@);
    Some(value as u16)
}

/// Where the colon of `r` stands, when `r` holds exactly one.
fn single_colon(r: &Vec<char>) -> (k: Option<usize>)
    ensures
        k is Some <==> exists|j: int| single_colon_at(r@, j),
        k is Some ==> single_colon_at(r@, k->Some_0 as int),
{
    let mut first: Option<usize> = None;
    let mut second: Option<usize> = None;
    let mut i: usize = 0;
    while i < r.len()
        invariant
            0 <= i <= r@.len(),
            first is None ==> second is None,
            first is None ==> forall|j: int| 0 <= j < i ==> #[trigger] r@[j] != ':',
            first is Some ==> {
                let k = first->Some_0 as int;
                &&& k < i
                &&& r@[k] == ':'
            },
            (first is Some && second is None) ==> forall|j: int|
                0 <= j < i && j != first->Some_0 ==> #[trigger] r@[j] != ':',
            second is Some ==> {
                let k2 = second->Some_0 as int;
                &&& k2 < r@.len()
                &&& r@[k2] == ':'
                &&& k2 != first->Some_0
            },
        decreases r@.len() - i,
    {
        if r[i] == ':' {
            if first.is_none() {
                first = Some(i);
            } else if second.is_none() {
                second = Some(i);
            }
        }
        i = i + 1;
    }
    match (first, second) {
        (Some(k), None) => {
            assert(single_colon_at(r@, k as int));
            Some(k)
        },
        (None, _) => {
            assert forall|j: int| !single_colon_at(r@, j) by {
                if single_colon_at(r@, j) {
                    assert(r@[j] == ':');
                }
            }
            None
        },
        (Some(k), Some(k2)) => {
            assert forall|j: int| !single_colon_at(r@, j) by {
                if single_colon_at(r@, j) {
                    assert(r@[k as int] == ':');
                    assert(r@[k2 as int] == ':');
                }
            }
            None
        },
    }
}

/// Parses a request line; refused lines say why, checked in the order of `request_outcome`.
pub fn parse_stream_request(line: &str) -> (r: Result<StreamRequest, RequestError>)
    ensures
        match request_outcome(line@) {
            Ok(v) => r is Ok && r->Ok_0.host@ == v.0 && r->Ok_0.port as nat == digits_value(v.1)
                && r->Ok_0.address@ == v.0 + seq![':'] + v.1 && string_views(r->Ok_0.tickers@)
                == v.2,
            Err(e) => r == Err::<StreamRequest, RequestError>(e),
        },
{
    let chars = str_chars(line);
    let words = split_fields(&chars, Separator::Space);
    let ghost w = fields(line@, Separator::Space);
    assert(char_views(words@) == w);
    if words.len() == 0 {
        return Err(RequestError::UnknownCommand);
    }
    assert(words@[0]@ == w[0]);
    let command = vec!['S', 'T', 'R', 'E', 'A', 'M'];
    assert(command@ =~= stream_word());
    if words[0].len() != 6 || !has_prefix(&words[0], &command) {
        assert(w[0] != stream_word());
        return Err(RequestError::UnknownCommand);
    }
    assert(w[0] =~= stream_word());
    if words.len() < 2 {
        return Err(RequestError::MissingAddress);
    }
    assert(words@[1]@ == w[1]);
    let scheme = vec!['u', 'd', 'p', ':', '/', '/'];
    assert(scheme@ =~= udp_scheme());
    if !has_prefix(&words[1], &scheme) {
        return Err(RequestError::NotUdp);
    }
    let rest = sub_chars(&words[1], 6, words[1].len());
    let k = match single_colon(&rest) {
        None => {
            return Err(RequestError::BadAddress);
        },
        Some(k) => k,
    };
    let ghost kk = choose|j: int| single_colon_at(rest@, j);
    assert(kk == k as int) by {
        if kk != k as int {
            assert(rest@[kk] == ':');
        }
    }
    let host = sub_chars(&rest, 0, k);
    let port_text = sub_chars(&rest, k + 1, rest.len());
    if host.len() == 0 || port_text.len() == 0 {
        return Err(RequestError::BadAddress);
    }
    let port = match parse_port(&port_text) {
        None => {
            return Err(RequestError::BadPort);
        },
        Some(p) => p,
    };
    if words.len() < 3 {
        return Err(RequestError::MissingTickers);
    }
    assert(words@[2]@ == w[2]);
    let names = split_fields(&words[2], Separator::Comma);
    if names.len() == 0 {
        return Err(RequestError::MissingTickers);
    }
    let mut tickers: Vec<String> = Vec::new();
    let mut i: usize = 0;
    while i < names.len()
        invariant
            0 <= i <= names@.len(),
            string_views(tickers@) =~= char_views(names@).subrange(0, i as int),
        decreases names@.len() - i,
    {
        let ghost old_tickers = tickers@;
        tickers.push(string_from_chars(&names[i]));
        assert(string_views(tickers@) =~= string_views(old_tickers).push(names@[i as int]@));
        i = i + 1;
        assert(string_views(tickers@) =~= char_views(names@).subrange(0, i as int));
    }
    assert(char_views(names@).subrange(0, i as int) =~= char_views(names@));
    let mut address_chars = host.clone();
    address_chars.push(':');
    let mut j: usize = 0;
    let ghost base = address_chars@;
    while j < port_text.len()
        invariant
            0 <= j <= port_text@.len(),
            address_chars@ == base + port_text@.subrange(0, j as int),
        decreases port_text@.len() - j,
    {
        address_chars.push(port_text[j]);
        j = j + 1;
        assert(address_chars@ =~= base + port_text@.subrange(0, j as int));
    }
    assert(port_text@.subrange(0, j as int) =~= port_text@);
    assert(address_chars@ =~= host@ + seq![':'] + port_text@);
    Ok(
        StreamRequest {
            host: string_from_chars(&host),
            port,
            address: string_from_chars(&address_chars),
            tickers,
        },
    )
}

/// The reply line for a refused request.
pub open spec fn error_line(e: RequestError) -> Seq<char> {
    match e {
        RequestError::UnknownCommand => "ERROR: unknown command\n"@,
        RequestError::MissingAddress => "ERROR: missing udp address\n"@,
        RequestError::NotUdp => "ERROR: the address must start with udp://\n"@,
        RequestError::BadAddress => "ERROR: the address must be <host>:<port>\n"@,
        RequestError::BadPort => "ERROR: the port must be a number from 0 to 65535\n"@,
        RequestError::MissingTickers => "ERROR: missing ticker list\n"@,
    }
}

/// `ERROR: `, which starts every refusal.
pub open spec fn error_prefix() -> Seq<char> {
    seq!['E', 'R', 'R', 'O', 'R', ':', ' ']
}

/// The reply line for an accepted request.
pub open spec fn ok_line() -> Seq<char> {
    seq!['O', 'K', '\n']
}

/// Every refusal line starts with `ERROR: `.
pub proof fn lemma_error_lines_start_with_error(e: RequestError)
    ensures
        error_prefix().is_prefix_of(error_line(e)),
{
    reveal_strlit("ERROR: unknown command\n");
    reveal_strlit("ERROR: missing udp address\n");
    reveal_strlit("ERROR: the address must start with udp://\n");
    reveal_strlit("ERROR: the address must be <host>:<port>\n");
    reveal_strlit("ERROR: the port must be a number from 0 to 65535\n");
    reveal_strlit("ERROR: missing ticker list\n");
    assert(error_line(e).subrange(0, 7) =~= error_prefix());
}

impl RequestError {
    /// The line sent back for this refusal.
    pub fn reply(&self) -> (r: String)
        ensures
            r@ == error_line(*self),
    {
        match self {
            RequestError::UnknownCommand => "ERROR: unknown command\n".to_owned(),
            RequestError::MissingAddress => "ERROR: missing udp address\n".to_owned(),
            RequestError::NotUdp => "ERROR: the address must start with udp://\n".to_owned(),
            RequestError::BadAddress => "ERROR: the address must be <host>:<port>\n".to_owned(),
            RequestError::BadPort => "ERROR: the port must be a number from 0 to 65535\n".to_owned(),
            RequestError::MissingTickers => "ERROR: missing ticker list\n".to_owned(),
        }
    }
}

/// The line sent back for an accepted request.
pub fn ok_reply() -> (r: String)
    ensures
        r@ == ok_line(),
{
    proof {
        reveal_strlit("OK\n");
    }
    let r = "OK\n".to_owned();
    assert(r@ =~= ok_line());
    r
}

/// What the server does with one request line read on a control connection.
#[derive(Debug, Clone)]
pub enum HandshakeStep {
    /// Send this `ERROR:` line and read the next request on the same connection.
    Retry(String),
    /// Send `OK`, register the subscription and start streaming to it.
    Accept(StreamRequest),
}

/// Decides the reply to one request line.
pub fn handshake_step(line: &str) -> (r: HandshakeStep)
    ensures
        match request_outcome(line@) {
            Ok(v) => r is Accept && r->Accept_0.host@ == v.0 && r->Accept_0.port as nat
                == digits_value(v.1) && r->Accept_0.address@ == v.0 + seq![':'] + v.1
                && string_views(r->Accept_0.tickers@) == v.2,
            Err(e) => r is Retry && r->Retry_0@ == error_line(e),
        },
        r is Retry ==> error_prefix().is_prefix_of(r->Retry_0@),
{
    match parse_stream_request(line) {
        Ok(req) => HandshakeStep::Accept(req),
        Err(e) => {
            proof {
                lemma_error_lines_start_with_error(e);
            }
            HandshakeStep::Retry(e.reply())
        },
    }
}

/// Ticker names joined by commas.
pub open spec fn joined(t: Seq<Seq<char>>) -> Seq<char>
    decreases t.len(),
{
    if t.len() == 0 {
        seq![]
    } else if t.len() == 1 {
        t[0]
    } else {
        joined(t.drop_last()) + seq![','] + t.last()
    }
}

/// The request a client sends: `STREAM udp://<address> <t1>,<t2>,...` and a newline.
pub open spec fn request_line(address: Seq<char>, tickers: Seq<Seq<char>>) -> Seq<char> {
    "STREAM udp://"@ + address + seq![' '] + joined(tickers) + seq!['\n']
}

fn push_chars(out: &mut Vec<char>, s: &Vec<char>)
    ensures
        final(out)@ == old(out)@ + s@,
{
    let mut i: usize = 0;
    while i < s.len()
        invariant
            0 <= i <= s@.len(),
            out@ == old(out)@ + s@.subrange(0, i as int),
        decreases s@.len() - i,
    {
        out.push(s[i]);
        i = i + 1;
        assert(out@ =~= old(out)@ + s@.subrange(0, i as int));
    }
    assert(s@.subrange(0, i as int) =~= s@);
}

/// Builds the request line for the data-plane `address` and the `tickers`.
pub fn stream_request_line(address: &String, tickers: &Vec<String>) -> (r: String)
    ensures
        r@ == request_line(address@, string_views(tickers@)),
{
    let mut out = str_chars("STREAM udp://");
    push_chars(&mut out, &str_chars(address.as_str()));
    out.push(' ');
    let ghost head = out@;
    let mut i: usize = 0;
    while i < tickers.len()
        invariant
            0 <= i <= tickers@.len(),
            out@ == head + joined(string_views(tickers@).subrange(0, i as int)),
        decreases tickers@.len() - i,
    {
        let ghost t = string_views(tickers@);
        assert(t.subrange(0, i + 1).drop_last() =~= t.subrange(0, i as int));
        if i > 0 {
            out.push(',');
        }
        push_chars(&mut out, &str_chars(tickers[i].as_str()));
        i = i + 1;
        assert(out@ =~= head + joined(t.subrange(0, i as int)));
    }
    assert(string_views(tickers@).subrange(0, i as int) =~= string_views(tickers@));
    out.push('\n');
    string_from_chars(&out)
}

/// Whether a reply line is the acceptance `OK`.
pub fn is_ok_reply(line: &String) -> (r: bool)
    ensures
        r == (line@ == ok_line()),
{
    line.eq(&ok_reply())
}

} // verus!
