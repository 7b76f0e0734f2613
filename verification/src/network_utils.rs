//! Textual helpers around local-network discovery: the interface listing
//! itself happens outside; this picks and renders the scannable block.

use vstd::prelude::*;
use vstd::string::StringExecFns;

use crate::text::{spec_dec, u64_to_dec};

verus! {

/// The dotted prefix `a.b.c` of an interface address.
pub open spec fn spec_prefix(o0: u8, o1: u8, o2: u8) -> Seq<char> {
    spec_dec(o0 as int) + "."@ + spec_dec(o1 as int) + "."@ + spec_dec(o2 as int)
}

/// The scannable block around a local interface address, as text: first
/// host, last host, and the network in prefix notation. Loopback and
/// link-local addresses yield nothing.
pub fn candidate_network(o0: u8, o1: u8, o2: u8) -> (r: Option<(String, String, String)>)
    ensures
        ((o0 == 169 && o1 == 254) || o0 == 127) <==> r is None,
        r matches Some(t) ==> t.0@ == spec_prefix(o0, o1, o2) + ".1"@ && t.1@ == spec_prefix(
            o0,
            o1,
            o2,
        ) + ".254"@ && t.2@ == spec_prefix(o0, o1, o2) + ".0/24"@,
{
    if (o0 == 169 && o1 == 254) || o0 == 127 {
        return None;
    }
    let mut prefix = u64_to_dec(o0 as u64);
    prefix.append(".");
    let second = u64_to_dec(o1 as u64);
    prefix.append(second.as_str());
    prefix.append(".");
    let third = u64_to_dec(o2 as u64);
    prefix.append(third.as_str());
    let mut start = prefix.clone();
    start.append(".1");
    let mut end = prefix.clone();
    end.append(".254");
    let mut cidr = prefix;
    cidr.append(".0/24");
    Some((start, end, cidr))
}

} // verus!
