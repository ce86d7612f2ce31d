//! Records typed events into a topic-partitioned MCAP log, keeping one
//! channel per topic and a per-topic sequence counter.

pub mod header;
pub mod logger;
pub mod message;
mod outside;
pub mod registry;

pub use header::MessageHeader;
pub use logger::{LoggerError, McapLogger};
pub use message::McapMessage;
