//! Target addresses as plain numeric values, one variant per family.

use vstd::prelude::*;

verus! {

/// An IP address as the integer value of its bits: 32 bits for the v4
/// family, 128 bits for the v6 family.
#[derive(Clone, Copy, Debug, PartialEq, Eq, Structural)]
pub enum IpAddress {
    V4(u32),
    V6(u128),
}

impl IpAddress {
    pub open spec fn same_family(self, other: IpAddress) -> bool {
        (self is V4) <==> (other is V4)
    }

    /// The address's numeric value within its family.
    pub open spec fn value(self) -> int {
        match self {
            IpAddress::V4(n) => n as int,
            IpAddress::V6(n) => n as int,
        }
    }

    /// The v4 address with the given dotted-quad octets.
    pub fn v4(a: u8, b: u8, c: u8, d: u8) -> (r: Self)
        ensures
            r == IpAddress::V4(
                ((a as u32) * 0x1000000 + (b as u32) * 0x10000 + (c as u32) * 0x100 + (
                d as u32)) as u32,
            ),
    {
        IpAddress::V4((a as u32) * 0x1000000 + (b as u32) * 0x10000 + (c as u32) * 0x100 + (
        d as u32))
    }

    /// The v6 address with the given eight 16-bit segments.
    pub fn v6(s0: u16, s1: u16, s2: u16, s3: u16, s4: u16, s5: u16, s6: u16, s7: u16) -> (r: Self)
        ensures
            r == IpAddress::V6(
                ((s0 as u128) * 0x10000000000000000000000000000 + (s1 as u128)
                    * 0x1000000000000000000000000 + (s2 as u128) * 0x100000000000000000000 + (
                s3 as u128) * 0x10000000000000000 + (s4 as u128) * 0x1000000000000 + (s5 as u128)
                    * 0x100000000 + (s6 as u128) * 0x10000 + (s7 as u128)) as u128,
            ),
    {
        IpAddress::V6(
            (s0 as u128) * 0x10000000000000000000000000000 + (s1 as u128)
                * 0x1000000000000000000000000 + (s2 as u128) * 0x100000000000000000000 + (
            s3 as u128) * 0x10000000000000000 + (s4 as u128) * 0x1000000000000 + (s5 as u128)
                * 0x100000000 + (s6 as u128) * 0x10000 + (s7 as u128),
        )
    }
}

} // verus!
