//! The probe-unit abstraction.

use vstd::prelude::*;

verus! {

/// A pluggable probe investigating one category of information for a host.
/// Each unit has a stable identifier, under which its output is recorded,
/// and a display label.
pub trait Fetcher {
    fn id(&self) -> String;

    fn name(&self) -> String;
}

} // verus!
