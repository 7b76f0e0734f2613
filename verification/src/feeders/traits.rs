//! The address-feeder abstraction.

use vstd::prelude::*;

use crate::address::IpAddress;

verus! {

/// An ordered, single-traversal producer of target addresses for one scan
/// pass. Each call to `next_address` hands out the first address not yet
/// produced; `total_addresses` estimates how many are left.
pub trait Feeder {
    /// The addresses not yet handed out, in the order they will come.
    spec fn remaining(&self) -> Seq<IpAddress>;

    /// The next address, or `None` once the traversal is done.
    fn next_address(&mut self) -> (r: Option<IpAddress>)
        ensures
            old(self).remaining().len() == 0 ==> (r is None
                && final(self).remaining() == old(self).remaining()),
            old(self).remaining().len() > 0 ==> (r == Some(old(self).remaining()[0])
                && final(self).remaining() == old(self).remaining().drop_first()),
    ;

    /// An approximate count of the remaining addresses, for progress
    /// reporting only; saturates at the machine's maximum.
    fn total_addresses(&self) -> (n: usize)
        ensures
            n as int == if self.remaining().len() <= usize::MAX {
                self.remaining().len() as int
            } else {
                usize::MAX as int
            },
    ;
}

} // verus!
