use std::str::FromStr;

use quote_stream::errors::ErrType;
use quote_stream::quote::StockQuote;
use quote_stream::text::{parse_i64, parse_u32};

fn quote(ticker: &str, price: u32, volume: u32, timestamp: i64) -> StockQuote {
    StockQuote { ticker: ticker.to_string(), price, volume, timestamp }
}

fn chars(s: &str) -> Vec<char> {
    s.chars().collect()
}

#[test]
fn display_writes_price_with_two_decimals() {
    assert_eq!(quote("AAPL", 12345, 500, 17).to_display_string(), "AAPL|123.45|500|17");
    assert_eq!(quote("X", 5, 1, -3).to_display_string(), "X|0.05|1|-3");
    assert_eq!(quote("X", 100, 0, 0).to_display_string(), "X|1.00|0|0");
    assert_eq!(
        quote("M", u32::MAX, u32::MAX, i64::MIN).to_display_string(),
        "M|42949672.95|4294967295|-9223372036854775808"
    );
}

#[test]
fn display_line_parses_back_to_the_same_quote() {
    let q = quote("AAPL", 12345, 500, 1_700_000_000_000);
    let back = StockQuote::from_str(&q.to_display_string()).unwrap();
    assert_eq!(back.ticker, "AAPL");
    assert_eq!(back.price, 12345);
    assert_eq!(back.volume, 500);
    assert_eq!(back.timestamp, 1_700_000_000_000);
}

#[test]
fn stored_line_parses_too() {
    let back = StockQuote::parse("MSFT|777|9|-1").unwrap();
    assert_eq!((back.ticker.as_str(), back.price, back.volume, back.timestamp), ("MSFT", 777, 9, -1));
    let back = StockQuote::parse("|+1.2.3|+0|+5").unwrap();
    assert_eq!((back.ticker.as_str(), back.price, back.volume, back.timestamp), ("", 123, 0, 5));
}

#[test]
fn wrong_field_count_is_not_supported() {
    assert!(matches!(StockQuote::parse("A|1|2"), Err(ErrType::NotSupported(_))));
    assert!(matches!(StockQuote::parse("A|1|2|3|4"), Err(ErrType::NotSupported(_))));
    assert!(matches!(StockQuote::parse(""), Err(ErrType::NotSupported(_))));
}

#[test]
fn bad_numbers_are_parse_errors() {
    assert!(matches!(StockQuote::parse("A|x|2|3"), Err(ErrType::ParseError(_))));
    assert!(matches!(StockQuote::parse("A|1|-2|3"), Err(ErrType::ParseError(_))));
    assert!(matches!(StockQuote::parse("A|1|2|"), Err(ErrType::ParseError(_))));
    assert!(matches!(StockQuote::parse("A|4294967296|2|3"), Err(ErrType::ParseError(_))));
    assert!(matches!(StockQuote::parse("A|1|2|9223372036854775808"), Err(ErrType::ParseError(_))));
}

#[test]
fn integers_read_like_std() {
    for t in ["0", "+7", "4294967295", "", "+", "-1", "4294967296", "1 ", "00012"] {
        assert_eq!(parse_u32(&chars(t)), t.parse::<u32>().ok(), "{t:?}");
    }
    for t in ["0", "-0", "+9", "-9223372036854775808", "9223372036854775807", "9223372036854775808", "-", "--1", "1-"] {
        assert_eq!(parse_i64(&chars(t)), t.parse::<i64>().ok(), "{t:?}");
    }
}

#[test]
fn stored_line_parses_back_to_the_same_quote() {
    for q in [quote("AAPL", 12345, 500, 1_700_000_000_000), quote("Ä", 0, u32::MAX, i64::MIN)] {
        let s = String::from_utf8(q.to_bytes()).unwrap();
        let back = StockQuote::from_str(&s).unwrap();
        assert_eq!((back.ticker, back.price, back.volume, back.timestamp), (q.ticker, q.price, q.volume, q.timestamp));
    }
}

#[test]
fn stored_and_display_forms_read_as_the_same_quote() {
    for s in ["AAPL|12345|500|1700000000000", "AAPL|123.45|500|1700000000000"] {
        let q: StockQuote = s.parse().unwrap();
        assert_eq!((q.ticker.as_str(), q.price, q.volume, q.timestamp), ("AAPL", 12345, 500, 1700000000000));
    }
    assert!(matches!("AAPL|1|2".parse::<StockQuote>(), Err(ErrType::NotSupported(_))));
    assert!(matches!("AAPL|1.x|2|3".parse::<StockQuote>(), Err(ErrType::ParseError(_))));
}
