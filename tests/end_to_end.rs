use std::sync::Arc;

use crossbeam_channel::bounded;
use quote_stream::client::{ReceiveEvent, ReceiverState};
use quote_stream::generator::{advance_quotes, initial_quotes, snapshot};
use quote_stream::publisher::PublisherState;
use quote_stream::registry::{Registry, Snapshot};
use quote_stream::request::{handshake_step, ok_reply, HandshakeStep};

#[test]
fn stream_request_gets_ok_and_one_generation_of_both_tickers() {
    let known = vec!["AAPL".to_string(), "MSFT".to_string()];
    let mut stocks = initial_quotes(&known, 1);

    let request = match handshake_step("STREAM udp://127.0.0.1:9100 AAPL,MSFT\n") {
        HandshakeStep::Accept(r) => r,
        HandshakeStep::Retry(t) => panic!("refused: {t}"),
    };
    assert_eq!(ok_reply(), "OK\n");

    let mut registry = Registry::new();
    let (tx, rx) = bounded::<Snapshot>(4);
    registry.create(request.address.clone(), tx);
    let publisher = PublisherState::new(request.host.clone(), request.tickers.clone(), 0);

    advance_quotes(&mut stocks, 2);
    let delivered = registry.publish(&Arc::new(snapshot(&stocks)));
    assert_eq!(delivered, vec![true]);

    let snap = rx.try_recv().unwrap();
    let datagram = publisher.on_snapshot(&snap);

    let mut receiver = ReceiverState::new("127.0.0.1".to_string(), request.tickers.clone(), 0);
    match receiver.on_datagram(&"127.0.0.1".to_string(), &"127.0.0.1:51000".to_string(), &datagram, 10) {
        ReceiveEvent::Quotes { quotes, count_mismatch, unexpected } => {
            assert_eq!(quotes.len(), 2);
            let mut tickers: Vec<&str> = quotes.iter().map(|q| q.ticker.as_str()).collect();
            tickers.sort();
            assert_eq!(tickers, vec!["AAPL", "MSFT"]);
            assert!(!count_mismatch);
            assert!(unexpected.is_empty());
        }
        other => panic!("{:?}", other),
    }
    assert_eq!(receiver.server_endpoint, Some("127.0.0.1:51000".to_string()));
}

#[test]
fn unknown_requested_tickers_are_left_out() {
    let stocks = initial_quotes(&vec!["AAPL".to_string(), "MSFT".to_string()], 1);
    let request = match handshake_step("STREAM udp://127.0.0.1:9100 MSFT,NOPE") {
        HandshakeStep::Accept(r) => r,
        HandshakeStep::Retry(t) => panic!("refused: {t}"),
    };
    let publisher = PublisherState::new(request.host, request.tickers.clone(), 0);
    let d = publisher.on_snapshot(&snapshot(&stocks));
    let mut receiver = ReceiverState::new("127.0.0.1".to_string(), request.tickers, 0);
    match receiver.on_datagram(&"127.0.0.1".to_string(), &"127.0.0.1:5".to_string(), &d, 0) {
        ReceiveEvent::Quotes { quotes, count_mismatch, .. } => {
            assert_eq!(quotes.len(), 1);
            assert_eq!(quotes[0].ticker, "MSFT");
            assert!(count_mismatch);
        }
        other => panic!("{:?}", other),
    }
}
