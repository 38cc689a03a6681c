//! Protocol and decision logic of a small real-time market-data service:
//! quote records and their encodings, the control-plane handshake grammar,
//! the quote generator's price rules, the subscription registry, and the
//! per-side heartbeat/streaming state machines.
use vstd::prelude::*;

pub mod errors;
pub mod quote;
pub mod text;
pub mod wire;
pub mod request;
pub mod generator;
pub mod publisher;
pub mod client;
pub mod registry;

verus! {

/// Period of the quote generator, in milliseconds.
pub const QUOTE_GENERATOR_PERIOD_MS: u64 = 1000;

/// Silence after which a publisher stops, in milliseconds.
pub const PING_WAIT_PERIOD_MS: u64 = 5000;

/// Period of the client's liveness probes, in milliseconds.
pub const PING_SEND_PERIOD_MS: u64 = 1000;

/// Window after which a client warns that no quotes arrived, in milliseconds.
pub const QUOTES_WAIT_PERIOD_MS: u64 = 6000;

/// Poll interval of every short-timeout wait, in milliseconds.
pub const POLL_PERIOD_MS: u64 = 50;

/// Poll interval of the control-plane accept loop, in milliseconds.
pub const TCP_CONNECTION_WAIT_PERIOD_MS: u64 = 100;

/// Number of unanswered probes after which a client shuts down.
pub const MAX_NUMBER_IGNORED_PING: u16 = 3;

/// Snapshots a subscription's channel holds before deliveries to it are dropped.
pub const SUBSCRIPTION_QUEUE_LEN: usize = 4;

/// Largest datagram the data plane sends or receives.
pub const MAX_DATAGRAM_LEN: usize = 2048;

} // verus!
