//! Verified core of a concurrent TCP/UDP port scanner.
//!
//! The library holds the engine's logic: target resolution (literal
//! addresses and CIDR blocks, plus filtering of hostname-lookup results),
//! job generation with fail-fast range validation, a token-bucket rate
//! limiter, classification of probe outcomes into port states, a static
//! service-name table, and the final filtered, sorted report.
//!
//! All network I/O — the actual TCP connects, UDP datagrams, DNS lookups,
//! and the timers that drive the rate limiter — lives outside the library,
//! which only ever sees the plain outcomes of those operations.

pub mod addr;
pub mod aggregate;
pub mod config;
pub mod iface;
pub mod limiter;
pub mod orchestrate;
pub mod parse;
pub mod resolve;
pub mod scan;
pub mod service;

pub use addr::IpAddress;
pub use config::Arguments;
pub use limiter::RateLimiter;
pub use scan::{PortState, Protocol, ScanJob, ScanResult};
pub use service::ServiceInfo;
