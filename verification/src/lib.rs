//! Verified core of a concurrent network host scanner.
//!
//! The library holds the scanning logic: port-specification parsing and
//! compression, the address range feeder, the per-host scanning context and
//! result record, the probe decision rules, and the bounded-concurrency
//! dispatch model. All actual network and OS interaction lives outside the
//! library and feeds plain observations into the verified functions.

pub mod address;
pub mod config;
pub mod errors;
pub mod feeders;
pub mod fetchers;
pub mod network_utils;
pub mod ports;
pub mod result;
pub mod scanner;
pub mod subject;
pub mod text;

pub use address::IpAddress;
pub use config::ScannerConfig;
pub use errors::ScanError;
pub use feeders::range::RangeFeeder;
pub use feeders::traits::Feeder;
pub use fetchers::registry::FetcherRegistry;
pub use result::{ResultType, ScanningResult};
pub use scanner::Scanner;
pub use subject::ScanningSubject;
