//! The mutable per-host context threaded through one host's probe chain.

use vstd::prelude::*;

use crate::address::IpAddress;
use crate::config::ScannerConfig;
use crate::result::{assoc_lookup, ResultType};
use crate::text::str_eq;

verus! {

/// Per-host state owned by exactly one pipeline: the target address, the
/// shared read-only configuration, a keyed numeric side-channel for
/// cross-probe signals, the running classification, a monotonic abort flag,
/// and the adaptive port-probe timeout.
pub struct ScanningSubject {
    address: IpAddress,
    config: ScannerConfig,
    parameters: Vec<(String, u64)>,
    result_type: ResultType,
    aborted: bool,
    adapted_port_timeout: Option<u64>,
}

impl ScanningSubject {
    pub closed spec fn spec_address(&self) -> IpAddress {
        self.address
    }

    pub closed spec fn spec_config(&self) -> ScannerConfig {
        self.config
    }

    pub closed spec fn param_entries(&self) -> Seq<(String, u64)> {
        self.parameters@
    }

    /// The signal stored under a key in the side-channel.
    pub open spec fn spec_parameter(&self, key: Seq<char>) -> Option<u64> {
        assoc_lookup(self.param_entries(), key)
    }

    pub closed spec fn spec_result_type(&self) -> ResultType {
        self.result_type
    }

    pub closed spec fn spec_aborted(&self) -> bool {
        self.aborted
    }

    pub closed spec fn spec_adapted(&self) -> Option<u64> {
        self.adapted_port_timeout
    }

    pub fn new(address: IpAddress, config: ScannerConfig) -> (r: Self)
        ensures
            r.spec_address() == address,
            r.spec_config() == config,
            r.param_entries() == Seq::<(String, u64)>::empty(),
            r.spec_result_type() == ResultType::Unknown,
            !r.spec_aborted(),
            r.spec_adapted() is None,
    {
        ScanningSubject {
            address,
            config,
            parameters: Vec::new(),
            result_type: ResultType::Unknown,
            aborted: false,
            adapted_port_timeout: None,
        }
    }

    pub fn address(&self) -> (r: IpAddress)
        ensures
            r == self.spec_address(),
    {
        self.address
    }

    pub fn config(&self) -> (r: &ScannerConfig)
        ensures
            *r == self.spec_config(),
    {
        &self.config
    }

    /// Stores a cross-probe signal, replacing any earlier one under the key.
    pub fn set_parameter(&mut self, key: String, value: u64)
        ensures
            final(self).spec_parameter(key@) == Some(value),
            forall|k: Seq<char>|
                k != key@ ==> #[trigger] final(self).spec_parameter(k) == old(self).spec_parameter(
                    k,
                ),
            final(self).spec_address() == old(self).spec_address(),
            final(self).spec_config() == old(self).spec_config(),
            final(self).spec_result_type() == old(self).spec_result_type(),
            final(self).spec_aborted() == old(self).spec_aborted(),
            final(self).spec_adapted() == old(self).spec_adapted(),
    {
        let ghost before = self.parameters@;
        self.parameters.push((key, value));
        proof {
            assert(self.parameters@.last().0@ == key@);
            assert(self.parameters@.drop_last() =~= before);
        }
    }

    pub fn get_parameter(&self, key: &str) -> (r: Option<u64>)
        ensures
            r == self.spec_parameter(key@),
    {
        let mut i: usize = self.parameters.len();
        proof {
            assert(self.parameters@.take(i as int) =~= self.parameters@);
        }
        while i > 0
            invariant
                i <= self.parameters@.len(),
                assoc_lookup(self.parameters@, key@) == assoc_lookup(
                    self.parameters@.take(i as int),
                    key@,
                ),
            decreases i,
        {
            let entry = &self.parameters[i - 1];
            proof {
                assert(self.parameters@.take(i as int).last() == self.parameters@[i - 1]);
                assert(self.parameters@.take(i as int).drop_last() =~= self.parameters@.take(
                    i as int - 1,
                ));
            }
            if str_eq(entry.0.as_str(), key) {
                return Some(entry.1);
            }
            i -= 1;
        }
        proof {
            assert(self.parameters@.take(0) =~= Seq::<(String, u64)>::empty());
        }
        None
    }

    pub fn set_result_type(&mut self, result_type: ResultType)
        ensures
            final(self).spec_result_type() == result_type,
            final(self).spec_address() == old(self).spec_address(),
            final(self).spec_config() == old(self).spec_config(),
            final(self).param_entries() == old(self).param_entries(),
            final(self).spec_aborted() == old(self).spec_aborted(),
            final(self).spec_adapted() == old(self).spec_adapted(),
    {
        self.result_type = result_type;
    }

    pub fn result_type(&self) -> (r: ResultType)
        ensures
            r == self.spec_result_type(),
    {
        self.result_type
    }

    /// Sets the abort flag; nothing ever clears it for this host.
    pub fn abort(&mut self)
        ensures
            final(self).spec_aborted(),
            final(self).spec_address() == old(self).spec_address(),
            final(self).spec_config() == old(self).spec_config(),
            final(self).param_entries() == old(self).param_entries(),
            final(self).spec_result_type() == old(self).spec_result_type(),
            final(self).spec_adapted() == old(self).spec_adapted(),
    {
        self.aborted = true;
    }

    pub fn is_aborted(&self) -> (r: bool)
        ensures
            r == self.spec_aborted(),
    {
        self.aborted
    }

    pub fn set_adapted_port_timeout(&mut self, timeout: u64)
        ensures
            final(self).spec_adapted() == Some(timeout),
            final(self).spec_address() == old(self).spec_address(),
            final(self).spec_config() == old(self).spec_config(),
            final(self).param_entries() == old(self).param_entries(),
            final(self).spec_result_type() == old(self).spec_result_type(),
            final(self).spec_aborted() == old(self).spec_aborted(),
    {
        self.adapted_port_timeout = Some(timeout);
    }

    /// The port-probe bound for this host: the adapted value if the liveness
    /// probe stored one, else the configured default.
    pub fn adapted_port_timeout(&self) -> (r: u64)
        ensures
            r == match self.spec_adapted() {
                Some(t) => t,
                None => self.spec_config().port_timeout_ms,
            },
    {
        match self.adapted_port_timeout {
            Some(t) => t,
            None => self.config.port_timeout_ms,
        }
    }
}

} // verus!
