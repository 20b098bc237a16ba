//! Session engine for a command-line WebSocket driver.
//!
//! The crate holds the verified core of the tool: the outbound frame
//! representation, the producer/consumer hand-off queue, the input framing
//! rules (text lines and fixed-size binary chunks), the keep-alive ping
//! schedule, and the per-tick dispatch decisions. Everything that touches
//! the terminal, the clock or the network lives outside the library and
//! drives these pieces with plain values.

pub mod dispatch;
pub mod frame;
pub mod headers;
pub mod ingest;
pub mod options;
pub mod ping;
pub mod queue;
