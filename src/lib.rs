//! Hand bytes to a sink through a bounded queue of chunks.
//!
//! A producer fills fixed-size chunks ([`chunker::Chunker`]), a consumer writes
//! them to the real sink and records the first failure ([`worker::Worker`]),
//! and [`proxy::Proxy`] composes the two over a bounded queue so that the
//! ordering, flush and error guarantees can be stated and proved together.
//! The sink itself is anything that implements [`sink::Sink`];
//! [`staging::Writer`] is one that only publishes bytes when flushed.
//! [`laws`] proves what holds across several calls of a proxy.

pub mod chunker;
pub mod error;
pub mod laws;
pub mod proxy;
pub mod sink;
pub mod staging;
pub mod worker;
