//! The immutable per-host record produced by one host's probe chain.

use vstd::prelude::*;

use crate::address::IpAddress;
use crate::text::str_eq;

verus! {

/// Coarse outcome for a host. Only the liveness probe sets `Dead` or `Alive`;
/// only the port probe sets `WithPorts`; the two are independent.
#[derive(Clone, Copy, Debug, PartialEq, Eq, Structural)]
pub enum ResultType {
    Unknown,
    Dead,
    Alive,
    WithPorts,
}

/// Value of `key` among keyed entries, where a later entry shadows an
/// earlier one with the same key.
pub open spec fn assoc_lookup<V>(entries: Seq<(String, V)>, key: Seq<char>) -> Option<V>
    decreases entries.len(),
{
    if entries.len() == 0 {
        None
    } else if entries.last().0@ == key {
        Some(entries.last().1)
    } else {
        assoc_lookup(entries.drop_last(), key)
    }
}

/// The record produced per host: address, named probe outputs,
/// classification, and optional link-layer address.
pub struct ScanningResult {
    address: IpAddress,
    values: Vec<(String, String)>,
    result_type: ResultType,
    mac: Option<String>,
}

impl ScanningResult {
    pub closed spec fn spec_address(&self) -> IpAddress {
        self.address
    }

    pub closed spec fn value_entries(&self) -> Seq<(String, String)> {
        self.values@
    }

    /// The output recorded under a probe identifier.
    pub open spec fn spec_value(&self, key: Seq<char>) -> Option<String> {
        assoc_lookup(self.value_entries(), key)
    }

    pub closed spec fn spec_result_type(&self) -> ResultType {
        self.result_type
    }

    pub closed spec fn spec_mac(&self) -> Option<String> {
        self.mac
    }

    pub fn new(address: IpAddress) -> (r: Self)
        ensures
            r.spec_address() == address,
            r.value_entries() == Seq::<(String, String)>::empty(),
            r.spec_result_type() == ResultType::Unknown,
            r.spec_mac() is None,
    {
        ScanningResult { address, values: Vec::new(), result_type: ResultType::Unknown, mac: None }
    }

    pub fn address(&self) -> (r: IpAddress)
        ensures
            r == self.spec_address(),
    {
        self.address
    }

    /// Records a probe's output under its identifier, replacing any earlier
    /// output under the same identifier.
    pub fn add_value(&mut self, key: String, value: String)
        ensures
            final(self).spec_value(key@) == Some(value),
            forall|k: Seq<char>|
                k != key@ ==> #[trigger] final(self).spec_value(k) == old(self).spec_value(k),
            final(self).spec_address() == old(self).spec_address(),
            final(self).spec_result_type() == old(self).spec_result_type(),
            final(self).spec_mac() == old(self).spec_mac(),
    {
        let ghost before = self.values@;
        self.values.push((key, value));
        proof {
            assert(self.values@.last().0@ == key@);
            assert(self.values@.drop_last() =~= before);
        }
    }

    pub fn get_value(&self, key: &str) -> (r: Option<&String>)
        ensures
            match r {
                Some(v) => self.spec_value(key@) == Some(*v),
                None => self.spec_value(key@) is None,
            },
    {
        let mut i: usize = self.values.len();
        proof {
            assert(self.values@.take(i as int) =~= self.values@);
        }
        while i > 0
            invariant
                i <= self.values@.len(),
                assoc_lookup(self.values@, key@) == assoc_lookup(self.values@.take(i as int), key@),
        decreases i,
        {
            let entry = &self.values[i - 1];
            proof {
                assert(self.values@.take(i as int).last() == self.values@[i - 1]);
                assert(self.values@.take(i as int).drop_last() =~= self.values@.take(i as int - 1));
            }
            if str_eq(entry.0.as_str(), key) {
                return Some(&entry.1);
            }
            i -= 1;
        }
        proof {
            assert(self.values@.take(0) =~= Seq::<(String, String)>::empty());
        }
        None
    }

    pub fn set_type(&mut self, result_type: ResultType)
        ensures
            final(self).spec_result_type() == result_type,
            final(self).spec_address() == old(self).spec_address(),
            final(self).value_entries() == old(self).value_entries(),
            final(self).spec_mac() == old(self).spec_mac(),
    {
        self.result_type = result_type;
    }

    pub fn result_type(&self) -> (r: ResultType)
        ensures
            r == self.spec_result_type(),
    {
        self.result_type
    }

    pub fn set_mac(&mut self, mac: String)
        ensures
            final(self).spec_mac() == Some(mac),
            final(self).spec_address() == old(self).spec_address(),
            final(self).value_entries() == old(self).value_entries(),
            final(self).spec_result_type() == old(self).spec_result_type(),
    {
        self.mac = Some(mac);
    }

    pub fn mac(&self) -> (r: Option<&String>)
        ensures
            match r {
                Some(m) => self.spec_mac() == Some(*m),
                None => self.spec_mac() is None,
            },
    {
        self.mac.as_ref()
    }
}

} // verus!
