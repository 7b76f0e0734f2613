//! A feeder walking one contiguous, single-family address interval.

use vstd::prelude::*;

use crate::address::IpAddress;
use crate::errors::ScanError;
use crate::feeders::traits::Feeder;

verus! {

/// The address of the given family with the given numeric value.
pub open spec fn addr_with(is_v4: bool, v: int) -> IpAddress {
    if is_v4 {
        IpAddress::V4(v as u32)
    } else {
        IpAddress::V6(v as u128)
    }
}

/// All addresses from `start` to `end` inclusive, in ascending order.
pub open spec fn range_seq(start: IpAddress, end: IpAddress) -> Seq<IpAddress> {
    Seq::new(
        (end.value() - start.value() + 1) as nat,
        |i: int| addr_with(start is V4, start.value() + i),
    )
}

/// Walks the interval `[start, end]` of one address family, in ascending
/// order, exactly once.
pub struct RangeFeeder {
    current: IpAddress,
    end: IpAddress,
    finished: bool,
}

impl RangeFeeder {
    /// Accepts exactly the intervals whose ends share a family and are not
    /// inverted; anything else is an invalid range.
    pub fn new(start: IpAddress, end: IpAddress) -> (r: Result<Self, ScanError>)
        ensures
            r is Ok <==> (start.same_family(end) && start.value() <= end.value()),
            r matches Err(e) ==> e is InvalidRange,
            r matches Ok(f) ==> f.remaining() == range_seq(start, end),
    {
        match (start, end) {
            (IpAddress::V4(s), IpAddress::V4(e)) => {
                if s > e {
                    Err(ScanError::InvalidRange)
                } else {
                    Ok(RangeFeeder { current: start, end, finished: false })
                }
            },
            (IpAddress::V6(s), IpAddress::V6(e)) => {
                if s > e {
                    Err(ScanError::InvalidRange)
                } else {
                    Ok(RangeFeeder { current: start, end, finished: false })
                }
            },
            _ => Err(ScanError::InvalidRange),
        }
    }
}

impl Feeder for RangeFeeder {
    closed spec fn remaining(&self) -> Seq<IpAddress> {
        if self.finished || !self.current.same_family(self.end) || self.current.value()
            > self.end.value() {
            Seq::empty()
        } else {
            range_seq(self.current, self.end)
        }
    }

    fn next_address(&mut self) -> (r: Option<IpAddress>) {
        if self.finished {
            return None;
        }
        let result = self.current;
        match (self.current, self.end) {
            (IpAddress::V4(c), IpAddress::V4(e)) => {
                if c > e {
                    self.finished = true;
                    return None;
                }
                proof {
                    assert(old(self).remaining().len() == e - c + 1);
                    assert(old(self).remaining()[0] == addr_with(true, c as int));
                }
                if c == e {
                    self.finished = true;
                    proof {
                        assert(final(self).remaining() =~= old(self).remaining().drop_first());
                    }
                } else {
                    self.current = IpAddress::V4(c + 1);
                    proof {
                        assert(final(self).remaining() =~= old(self).remaining().drop_first());
                    }
                }
                Some(result)
            },
            (IpAddress::V6(c), IpAddress::V6(e)) => {
                if c > e {
                    self.finished = true;
                    return None;
                }
                proof {
                    assert(old(self).remaining().len() == e - c + 1);
                    assert(old(self).remaining()[0] == addr_with(false, c as int));
                }
                if c == e {
                    self.finished = true;
                    proof {
                        assert(final(self).remaining() =~= old(self).remaining().drop_first());
                    }
                } else {
                    self.current = IpAddress::V6(c + 1);
                    proof {
                        assert(final(self).remaining() =~= old(self).remaining().drop_first());
                    }
                }
                Some(result)
            },
            _ => {
                self.finished = true;
                None
            },
        }
    }

    fn total_addresses(&self) -> (n: usize) {
        if self.finished {
            return 0;
        }
        match (self.current, self.end) {
            (IpAddress::V4(c), IpAddress::V4(e)) => {
                if c > e {
                    0
                } else {
                    let diff: u64 = (e - c) as u64;
                    if diff >= usize::MAX as u64 {
                        usize::MAX
                    } else {
                        (diff + 1) as usize
                    }
                }
            },
            (IpAddress::V6(c), IpAddress::V6(e)) => {
                if c > e {
                    0
                } else {
                    let diff: u128 = e - c;
                    if diff >= usize::MAX as u128 {
                        usize::MAX
                    } else {
                        (diff + 1) as usize
                    }
                }
            },
            _ => 0,
        }
    }
}

} // verus!
