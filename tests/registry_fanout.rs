use std::sync::Arc;

use crossbeam_channel::bounded;
use quote_stream::quote::StockQuote;
use quote_stream::registry::{Registry, Snapshot};

fn snap(n: u32) -> Snapshot {
    Arc::new(vec![StockQuote { ticker: "AAPL".to_string(), price: n, volume: 1, timestamp: 0 }])
}

#[test]
fn create_replaces_and_remove_deletes() {
    let mut r: Registry<u32> = Registry::new();
    assert_eq!(r.create("a:1".to_string(), 1), None);
    assert_eq!(r.create("b:2".to_string(), 2), None);
    assert_eq!(r.create("a:1".to_string(), 3), Some(1));
    assert_eq!(r.len(), 2);
    assert_eq!(r.addresses(), vec!["a:1".to_string(), "b:2".to_string()]);
    assert_eq!(r.find(&"b:2".to_string()), Some(1));
    assert_eq!(r.remove(&"a:1".to_string()), Some(3));
    assert_eq!(r.remove(&"a:1".to_string()), None);
    assert_eq!(r.addresses(), vec!["b:2".to_string()]);
    assert_eq!(r.find(&"a:1".to_string()), None);
}

#[test]
fn a_stuck_subscriber_does_not_hold_back_a_healthy_one() {
    let mut r = Registry::new();
    let (stuck_tx, _stuck_rx) = bounded::<Snapshot>(1);
    let (healthy_tx, healthy_rx) = bounded::<Snapshot>(1);
    r.create("stuck:1".to_string(), stuck_tx);
    r.create("healthy:2".to_string(), healthy_tx);
    for generation in 0..20u32 {
        let delivered = r.publish(&snap(generation));
        assert_eq!(delivered, vec![generation == 0, true]);
        let got = healthy_rx.try_recv().expect("healthy subscriber got this generation");
        assert_eq!(got[0].price, generation);
    }
}

#[test]
fn a_dropped_consumer_loses_its_deliveries_only() {
    let mut r = Registry::new();
    let (gone_tx, gone_rx) = bounded::<Snapshot>(4);
    let (live_tx, live_rx) = bounded::<Snapshot>(4);
    drop(gone_rx);
    r.create("gone:1".to_string(), gone_tx);
    r.create("live:2".to_string(), live_tx);
    assert_eq!(r.publish(&snap(7)), vec![false, true]);
    assert_eq!(live_rx.try_recv().unwrap()[0].price, 7);
}
