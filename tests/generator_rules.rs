use quote_stream::generator::{
    advance_quotes, generate_quote, initial_quotes, is_popular, price_bounds, snapshot,
    volume_bounds,
};

fn names(v: &[&str]) -> Vec<String> {
    v.iter().map(|s| s.to_string()).collect()
}

#[test]
fn price_window_doubles_below_one_hundred() {
    assert_eq!(price_bounds(1), (1, 2));
    assert_eq!(price_bounds(50), (50, 100));
    assert_eq!(price_bounds(99), (99, 198));
}

#[test]
fn price_window_is_a_coarse_twenty_percent_band_from_one_hundred() {
    assert_eq!(price_bounds(100), (80, 120));
    assert_eq!(price_bounds(199), (179, 219));
    assert_eq!(price_bounds(12345), (9885, 14805));
}

#[test]
fn price_window_upper_end_is_capped() {
    let p = u32::MAX - 5;
    let band = (p / 100) * 20;
    assert_eq!(price_bounds(p), (p - band, u32::MAX));
}

#[test]
fn volume_class_depends_on_ticker() {
    for t in ["AAPL", "MSFT", "TSLA"] {
        assert!(is_popular(&t.to_string()));
        assert_eq!(volume_bounds(&t.to_string()), (1000, 6000));
    }
    for t in ["GOOG", "AAP", "aapl", ""] {
        assert!(!is_popular(&t.to_string()));
        assert_eq!(volume_bounds(&t.to_string()), (100, 1100));
    }
}

#[test]
fn first_quotes_fall_in_their_ranges() {
    let tickers = names(&["AAPL", "NEW", "MSFT"]);
    let quotes = initial_quotes(&tickers, 42);
    assert_eq!(quotes.len(), 3);
    for (q, t) in quotes.iter().zip(tickers.iter()) {
        assert_eq!(&q.ticker, t);
        assert_eq!(q.timestamp, 42);
        assert!((10..100000).contains(&q.price));
    }
    assert!((1000..6000).contains(&quotes[0].volume));
    assert!((100..1100).contains(&quotes[1].volume));
    assert!((1000..6000).contains(&quotes[2].volume));
}

#[test]
fn every_generation_stays_in_its_window() {
    let tickers = names(&["AAPL", "XYZ", "TSLA", "LOW"]);
    let mut stocks = initial_quotes(&tickers, 0);
    stocks[3].price = 1;
    for k in 1..200i64 {
        let before: Vec<(u32, String)> = stocks.iter().map(|q| (q.price, q.ticker.clone())).collect();
        advance_quotes(&mut stocks, k);
        for (q, (p, t)) in stocks.iter().zip(before.iter()) {
            assert_eq!(&q.ticker, t);
            assert_eq!(q.timestamp, k);
            let (lo, hi) = price_bounds(*p);
            assert!(lo <= q.price && q.price < hi);
            if *p < 100 {
                assert!(*p <= q.price && q.price < 2 * *p);
            }
            let (vlo, vhi) = volume_bounds(t);
            assert!(vlo <= q.volume && q.volume < vhi);
            assert!(q.price > 0 && q.volume > 0);
        }
    }
}

#[test]
fn generated_quote_follows_last_price() {
    for _ in 0..100 {
        let q = generate_quote(&"AAPL".to_string(), Some(500), 9);
        assert!((400..600).contains(&q.price));
        let q = generate_quote(&"X".to_string(), Some(3), 9);
        assert!((3..6).contains(&q.price));
    }
}

#[test]
fn snapshot_copies_every_quote() {
    let stocks = initial_quotes(&names(&["A", "B"]), 5);
    let snap = snapshot(&stocks);
    assert_eq!(snap.len(), 2);
    for (a, b) in snap.iter().zip(stocks.iter()) {
        assert_eq!(a.ticker, b.ticker);
        assert_eq!(a.price, b.price);
        assert_eq!(a.volume, b.volume);
        assert_eq!(a.timestamp, b.timestamp);
    }
}
