//! Shared scan configuration.

use vstd::prelude::*;
use vstd::string::StringExecFns;

verus! {

/// Options recognised by the scanning engine: the pipeline concurrency bound,
/// the liveness-probe parameters, the port specification and the port-probe
/// timeouts with their adaptive floor, and whether a host classified Dead
/// keeps its remaining probe chain running.
pub struct ScannerConfig {
    pub max_threads: usize,
    pub ping_timeout_ms: u64,
    pub scan_dead_hosts: bool,
    pub port_string: String,
    pub use_requested_ports: bool,
    pub ping_count: u8,
    pub port_timeout_ms: u64,
    pub min_port_timeout_ms: u64,
    pub adapt_port_timeout: bool,
}

impl Clone for ScannerConfig {
    fn clone(&self) -> (res: Self)
        ensures
            res == *self,
    {
        ScannerConfig {
            max_threads: self.max_threads,
            ping_timeout_ms: self.ping_timeout_ms,
            scan_dead_hosts: self.scan_dead_hosts,
            port_string: self.port_string.clone(),
            use_requested_ports: self.use_requested_ports,
            ping_count: self.ping_count,
            port_timeout_ms: self.port_timeout_ms,
            min_port_timeout_ms: self.min_port_timeout_ms,
            adapt_port_timeout: self.adapt_port_timeout,
        }
    }
}

impl Default for ScannerConfig {
    fn default() -> (res: Self)
        ensures
            res.max_threads == 100,
            res.ping_timeout_ms == 2000,
            !res.scan_dead_hosts,
            res.port_string@ == "80,443,8080,3389,22,23,21,25,110,139,445"@,
            !res.use_requested_ports,
            res.ping_count == 3,
            res.port_timeout_ms == 500,
            res.min_port_timeout_ms == 100,
            res.adapt_port_timeout,
    {
        ScannerConfig {
            max_threads: 100,
            ping_timeout_ms: 2000,
            scan_dead_hosts: false,
            port_string: String::from_str("80,443,8080,3389,22,23,21,25,110,139,445"),
            use_requested_ports: false,
            ping_count: 3,
            port_timeout_ms: 500,
            min_port_timeout_ms: 100,
            adapt_port_timeout: true,
        }
    }
}

} // verus!
