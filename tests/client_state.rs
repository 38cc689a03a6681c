use quote_stream::client::{HeartbeatAction, HeartbeatState, ReceiveEvent, ReceiverState};
use quote_stream::quote::StockQuote;
use quote_stream::wire::data_datagram;

fn names(v: &[&str]) -> Vec<String> {
    v.iter().map(|s| s.to_string()).collect()
}

fn quote(ticker: &str) -> StockQuote {
    StockQuote { ticker: ticker.to_string(), price: 100, volume: 200, timestamp: 3 }
}

#[test]
fn first_datagram_from_server_host_latches_endpoint() {
    let mut r = ReceiverState::new("127.0.0.1".to_string(), names(&["A"]), 0);
    assert_eq!(r.data_deadline_ms, 6000);
    let ev = r.on_datagram(&"127.0.0.1".to_string(), &"127.0.0.1:40000".to_string(), b"PONG", 10);
    assert!(matches!(ev, ReceiveEvent::Pong));
    assert_eq!(r.server_endpoint, Some("127.0.0.1:40000".to_string()));
    r.on_datagram(&"127.0.0.1".to_string(), &"127.0.0.1:50000".to_string(), b"PONG", 20);
    assert_eq!(r.server_endpoint, Some("127.0.0.1:40000".to_string()));
}

#[test]
fn datagrams_from_other_hosts_are_discarded() {
    let mut r = ReceiverState::new("127.0.0.1".to_string(), names(&["A"]), 0);
    r.awaiting_pong = true;
    let ev = r.on_datagram(&"10.1.1.1".to_string(), &"10.1.1.1:1".to_string(), b"PONG", 10);
    assert!(matches!(ev, ReceiveEvent::ForeignHost));
    assert_eq!(r.server_endpoint, None);
    assert!(r.awaiting_pong);
}

#[test]
fn pong_clears_awaiting_and_keeps_deadline() {
    let mut r = ReceiverState::new("s".to_string(), names(&["A"]), 0);
    r.awaiting_pong = true;
    r.on_datagram(&"s".to_string(), &"s:1".to_string(), b"PONG", 3000);
    assert!(!r.awaiting_pong);
    assert_eq!(r.data_deadline_ms, 6000);
}

#[test]
fn data_is_reported_with_mismatches() {
    let mut r = ReceiverState::new("s".to_string(), names(&["A", "B"]), 0);
    let d = data_datagram(&vec![quote("A"), quote("Q")]);
    let ev = r.on_datagram(&"s".to_string(), &"s:9".to_string(), &d, 1000);
    match ev {
        ReceiveEvent::Quotes { quotes, count_mismatch, unexpected } => {
            assert_eq!(quotes.len(), 2);
            assert_eq!(quotes[1].ticker, "Q");
            assert!(!count_mismatch);
            assert_eq!(unexpected, vec!["Q".to_string()]);
        }
        other => panic!("{:?}", other),
    }
    assert_eq!(r.data_deadline_ms, 7000);
    let d = data_datagram(&vec![quote("A")]);
    match r.on_datagram(&"s".to_string(), &"s:9".to_string(), &d, 1000) {
        ReceiveEvent::Quotes { count_mismatch, unexpected, .. } => {
            assert!(count_mismatch);
            assert!(unexpected.is_empty());
        }
        other => panic!("{:?}", other),
    }
}

#[test]
fn undecodable_and_unknown_datagrams() {
    let mut r = ReceiverState::new("s".to_string(), names(&["A"]), 0);
    let ev = r.on_datagram(&"s".to_string(), &"s:9".to_string(), b"DATA\x01", 500);
    assert!(matches!(ev, ReceiveEvent::Undecodable));
    assert_eq!(r.data_deadline_ms, 6500);
    let ev = r.on_datagram(&"s".to_string(), &"s:9".to_string(), b"HELLO", 600);
    assert!(matches!(ev, ReceiveEvent::UnknownTag));
    let ev = r.on_datagram(&"s".to_string(), &"s:9".to_string(), b"PING", 600);
    assert!(matches!(ev, ReceiveEvent::UnknownTag));
    assert_eq!(r.data_deadline_ms, 6500);
}

#[test]
fn idle_warning_extends_the_deadline() {
    let mut r = ReceiverState::new("s".to_string(), names(&["A"]), 0);
    assert!(!r.on_idle(5999));
    assert!(r.on_idle(6000));
    assert_eq!(r.data_deadline_ms, 12000);
    assert!(!r.on_idle(11000));
}

#[test]
fn deadline_saturates() {
    let r = ReceiverState::new("s".to_string(), names(&["A"]), u64::MAX - 1);
    assert_eq!(r.data_deadline_ms, u64::MAX);
}

#[test]
fn three_unanswered_probes_force_shutdown() {
    let mut h = HeartbeatState::new();
    assert_eq!(h.step(false, false, false), HeartbeatAction::Wait);
    assert_eq!(h.step(false, true, false), HeartbeatAction::SendPing);
    assert_eq!(h.step(false, true, true), HeartbeatAction::SendPing);
    assert_eq!(h.misses, 1);
    assert_eq!(h.step(false, true, true), HeartbeatAction::SendPing);
    assert_eq!(h.misses, 2);
    assert_eq!(h.step(false, true, true), HeartbeatAction::Shutdown);
    assert_eq!(h.misses, 3);
    assert_eq!(h.step(true, true, true), HeartbeatAction::Exit);
}

#[test]
fn an_answered_probe_resets_the_count() {
    let mut h = HeartbeatState::new();
    h.step(false, true, true);
    h.step(false, true, true);
    assert_eq!(h.misses, 2);
    assert_eq!(h.step(false, true, false), HeartbeatAction::SendPing);
    assert_eq!(h.misses, 0);
    assert_eq!(h.step(false, true, true), HeartbeatAction::SendPing);
}

#[test]
fn repeated_ticker_names_count_once() {
    let mut r = ReceiverState::new("s".to_string(), names(&["A", "B", "A"]), 0);
    assert_eq!(r.tickers, names(&["A", "B"]));
    let d = data_datagram(&vec![quote("A"), quote("B")]);
    match r.on_datagram(&"s".to_string(), &"s:9".to_string(), &d, 0) {
        ReceiveEvent::Quotes { count_mismatch, .. } => assert!(!count_mismatch),
        other => panic!("{:?}", other),
    }
}
