//! A verified core for a concurrent TCP-connect port scanner.
//!
//! The library covers the parts of the scanner that are pure logic: how the
//! 16-bit port space is partitioned across a fixed number of workers, how
//! the results funnelled back from the workers are ordered into a
//! deterministic report, and how a command line is classified into a scan
//! request, a help request, or a rejection. The surrounding process —
//! sockets, threads, channels, printing — lives outside the library and
//! only hands plain values across this boundary.

pub mod args;
pub mod collect;
pub mod ports;
pub mod render;
