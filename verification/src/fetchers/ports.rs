//! The port-reachability probe's decision rules: which ports to attempt, and
//! the classification and output derived from the ports that answered.

use vstd::prelude::*;
use vstd::string::{StrSliceExecFns, StringExecFns};

use crate::config::ScannerConfig;
use crate::errors::ScanError;
use crate::fetchers::traits::Fetcher;
use crate::ports::{format_ports, in_spec_ports, spec_compress, spec_ports_ok, PortIterator};
use crate::result::ResultType;
use crate::subject::ScanningSubject;
use crate::text::{is_blank, spec_trim};

verus! {

pub struct PortsFetcher {
    config: ScannerConfig,
}

impl PortsFetcher {
    pub closed spec fn spec_config(&self) -> ScannerConfig {
        self.config
    }

    pub fn new(config: ScannerConfig) -> (r: Self)
        ensures
            r.spec_config() == config,
    {
        PortsFetcher { config }
    }

    pub fn duplicate(&self) -> (r: Self)
        ensures
            r == *self,
    {
        PortsFetcher { config: self.config.clone() }
    }

    /// The ports this probe should attempt: none at all when the configured
    /// specification is blank, its full expansion otherwise; an ill-formed
    /// specification is a port-scan failure, and nothing else is.
    pub fn requested_ports(&self) -> (r: Result<PortIterator, ScanError>)
        ensures
            ({
                let ps = self.spec_config().port_string@;
                if spec_trim(ps).len() == 0 {
                    r matches Ok(it) && it.ports_seq().len() == 0 && it.wf() && it.position() == 0
                } else {
                    (r is Ok <==> spec_ports_ok(ps)) && (r matches Ok(it) ==> it.wf()
                        && it.position() == 0 && it.ports_seq().len() <= 65535 && (forall|p: u16|
                        it.ports_seq().contains(p) <==> in_spec_ports(ps, p))) && (r matches Err(e)
                        ==> e is PortScanFailed)
                }
            }),
    {
        if is_blank(self.config.port_string.as_str()) {
            Ok(PortIterator::empty())
        } else {
            match PortIterator::new(self.config.port_string.as_str()) {
                Ok(it) => Ok(it),
                Err(m) => Err(ScanError::PortScanFailed(m)),
            }
        }
    }

    /// Classifies from the ports that answered. With a blank specification
    /// no ports were requested at all: the not-requested sentinel is
    /// recorded and nothing else changes. Otherwise any reachable port marks
    /// the host WithPorts with the compressed range text, and none yields
    /// the no-data sentinel.
    pub fn evaluate(&self, subject: &mut ScanningSubject, open_ports: &Vec<u16>) -> (r: String)
        ensures
            final(subject).spec_address() == old(subject).spec_address(),
            final(subject).spec_config() == old(subject).spec_config(),
            final(subject).param_entries() == old(subject).param_entries(),
            final(subject).spec_aborted() == old(subject).spec_aborted(),
            final(subject).spec_adapted() == old(subject).spec_adapted(),
            spec_trim(self.spec_config().port_string@).len() == 0 ==> (r@ == "[n/s]"@
                && final(subject).spec_result_type() == old(subject).spec_result_type()),
            (spec_trim(self.spec_config().port_string@).len() > 0 && open_ports@.len() == 0) ==> (
            r@ == "[n/a]"@ && final(subject).spec_result_type() == old(
                subject,
            ).spec_result_type()),
            (spec_trim(self.spec_config().port_string@).len() > 0 && open_ports@.len() > 0) ==> (
            r@ == spec_compress(open_ports@) && final(subject).spec_result_type()
                == ResultType::WithPorts),
    {
        if is_blank(self.config.port_string.as_str()) {
            String::from_str("[n/s]")
        } else if open_ports.len() == 0 {
            String::from_str("[n/a]")
        } else {
            subject.set_result_type(ResultType::WithPorts);
            format_ports(open_ports.as_slice())
        }
    }
}

impl Fetcher for PortsFetcher {
    fn id(&self) -> (r: String)
        ensures
            r@ == "ports"@,
    {
        String::from_str("ports")
    }

    fn name(&self) -> (r: String)
        ensures
            r@ == "Ports"@,
    {
        String::from_str("Ports")
    }
}

} // verus!
