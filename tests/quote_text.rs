use quote_stream::errors::ErrType;
use quote_stream::quote::StockQuote;

fn quote(ticker: &str, price: u32, volume: u32, timestamp: i64) -> StockQuote {
    StockQuote { ticker: ticker.to_string(), price, volume, timestamp }
}

#[test]
fn to_bytes_writes_pipe_separated_decimals() {
    let q = quote("AAPL", 12345, 500, 1700000000123);
    assert_eq!(q.to_bytes(), b"AAPL|12345|500|1700000000123".to_vec());
}

#[test]
fn to_bytes_writes_zero_and_negative_numbers() {
    assert_eq!(quote("X", 0, 0, 0).to_bytes(), b"X|0|0|0".to_vec());
    assert_eq!(quote("X", 7, 10, -42).to_bytes(), b"X|7|10|-42".to_vec());
}

#[test]
fn to_bytes_handles_extreme_values() {
    let q = quote("", u32::MAX, u32::MAX, i64::MIN);
    assert_eq!(q.to_bytes(), b"|4294967295|4294967295|-9223372036854775808".to_vec());
    let q = quote("Z", 1, 1, i64::MAX);
    assert_eq!(q.to_bytes(), b"Z|1|1|9223372036854775807".to_vec());
}

#[test]
fn to_bytes_keeps_utf8_tickers() {
    let q = quote("ÄÖ", 1, 2, 3);
    let mut expected = "ÄÖ".as_bytes().to_vec();
    expected.extend_from_slice(b"|1|2|3");
    assert_eq!(q.to_bytes(), expected);
}

#[test]
fn error_text_names_kind_and_message() {
    assert_eq!(ErrType::ParseError("bad".to_string()).to_text(), "ParseError(bad)");
    assert_eq!(ErrType::NotSupported("x".to_string()).to_text(), "Not supported(x)");
    assert_eq!(ErrType::NoAccess(String::new()).to_text(), "NoAccess()");
    assert_eq!(ErrType::ReadError("f".to_string()).to_text(), "ReadError(f)");
    assert_eq!(ErrType::ConnectionError("c".to_string()).to_text(), "ConnectionError(c)");
    assert_eq!(ErrType::RequestError("r".to_string()).to_text(), "RequestError(r)");
    assert_eq!(ErrType::CtrlcError("h".to_string()).to_text(), "CtrlcError(h)");
}
