//! The reverse-name probe: its lookup runs outside, off the
//! scheduling-critical path, and any failure is absorbed into a sentinel.

use vstd::prelude::*;
use vstd::string::StringExecFns;

use crate::fetchers::traits::Fetcher;

verus! {

pub struct HostnameFetcher;

impl HostnameFetcher {
    pub fn new() -> (r: Self) {
        HostnameFetcher
    }

    /// The probe's output for a reverse-lookup outcome: the name found, or
    /// the no-data sentinel. A failed lookup is never a hard error.
    pub fn evaluate(&self, lookup: &Option<String>) -> (r: String)
        ensures
            match lookup {
                Some(h) => r@ == h@,
                None => r@ == "[n/a]"@,
            },
    {
        match lookup {
            Some(h) => h.clone(),
            None => String::from_str("[n/a]"),
        }
    }
}

impl Default for HostnameFetcher {
    fn default() -> (r: Self) {
        HostnameFetcher::new()
    }
}

impl Fetcher for HostnameFetcher {
    fn id(&self) -> (r: String)
        ensures
            r@ == "hostname"@,
    {
        String::from_str("hostname")
    }

    fn name(&self) -> (r: String)
        ensures
            r@ == "Hostname"@,
    {
        String::from_str("Hostname")
    }
}

} // verus!
