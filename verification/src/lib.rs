//! Core of a TCP port scanner: validated port ranges, canonical address
//! ordering, the per-port probe protocol (timeout, retry, cancellation),
//! and assembly of scan results into a port-ordered list.
//!
//! Everything here is pure logic over plain values. The unverified shell
//! around this library performs the actual name lookups, TCP connection
//! attempts and thread scheduling, and drives the state machines defined
//! here with the outcomes it observes.

pub mod address;
pub mod hints;
pub mod ports;
pub mod probe;
pub mod scan;
