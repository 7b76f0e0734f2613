//! The ordered list of registered probes and the selection that runs,
//! built before a scan starts and then treated as a frozen snapshot.

use vstd::prelude::*;

use crate::config::ScannerConfig;
use crate::fetchers::hostname::HostnameFetcher;
use crate::fetchers::mac::MacFetcher;
use crate::fetchers::ping::PingFetcher;
use crate::fetchers::ports::PortsFetcher;
use crate::fetchers::traits::Fetcher;

verus! {

/// One of the built-in probes, dispatched by tag.
pub enum FetcherKind {
    Ping(PingFetcher),
    Hostname(HostnameFetcher),
    Ports(PortsFetcher),
    Mac(MacFetcher),
}

impl FetcherKind {
    /// The stable identifier under which this probe's output is recorded.
    pub open spec fn spec_id(&self) -> Seq<char> {
        match self {
            FetcherKind::Ping(_) => "ping"@,
            FetcherKind::Hostname(_) => "hostname"@,
            FetcherKind::Ports(_) => "ports"@,
            FetcherKind::Mac(_) => "mac"@,
        }
    }

    pub fn id(&self) -> (r: String)
        ensures
            r@ == self.spec_id(),
    {
        match self {
            FetcherKind::Ping(f) => f.id(),
            FetcherKind::Hostname(f) => f.id(),
            FetcherKind::Ports(f) => f.id(),
            FetcherKind::Mac(f) => f.id(),
        }
    }

    /// The display label of this probe.
    pub open spec fn spec_name(&self) -> Seq<char> {
        match self {
            FetcherKind::Ping(_) => "Ping"@,
            FetcherKind::Hostname(_) => "Hostname"@,
            FetcherKind::Ports(_) => "Ports"@,
            FetcherKind::Mac(_) => "MAC Address"@,
        }
    }

    pub fn name(&self) -> (r: String)
        ensures
            r@ == self.spec_name(),
    {
        match self {
            FetcherKind::Ping(f) => f.name(),
            FetcherKind::Hostname(f) => f.name(),
            FetcherKind::Ports(f) => f.name(),
            FetcherKind::Mac(f) => f.name(),
        }
    }
}

impl Clone for FetcherKind {
    fn clone(&self) -> (r: Self)
        ensures
            r == *self,
    {
        match self {
            FetcherKind::Ping(f) => FetcherKind::Ping(f.duplicate()),
            FetcherKind::Hostname(_) => FetcherKind::Hostname(HostnameFetcher::new()),
            FetcherKind::Ports(f) => FetcherKind::Ports(f.duplicate()),
            FetcherKind::Mac(_) => FetcherKind::Mac(MacFetcher::new()),
        }
    }
}

/// Registered probes plus the ordered selection of those that run.
pub struct FetcherRegistry {
    fetchers: Vec<FetcherKind>,
    selected: Vec<usize>,
}

impl FetcherRegistry {
    pub closed spec fn spec_fetchers(&self) -> Seq<FetcherKind> {
        self.fetchers@
    }

    pub closed spec fn spec_selected(&self) -> Seq<usize> {
        self.selected@
    }

    /// Every selected index names a registered probe.
    pub open spec fn wf(&self) -> bool {
        forall|i: int|
            0 <= i < self.spec_selected().len() ==> (#[trigger] self.spec_selected()[i] as int)
                < self.spec_fetchers().len()
    }

    pub fn new() -> (r: Self)
        ensures
            r.spec_fetchers().len() == 0,
            r.spec_selected().len() == 0,
            r.wf(),
    {
        FetcherRegistry { fetchers: Vec::new(), selected: Vec::new() }
    }

    /// Adds a probe to the registered list. The selection defaults to all
    /// registered probes in registration order, so the new probe also joins
    /// the end of the selection.
    pub fn register(&mut self, fetcher: FetcherKind)
        ensures
            final(self).spec_fetchers() == old(self).spec_fetchers().push(fetcher),
            final(self).spec_selected() == old(self).spec_selected().push(
                old(self).spec_fetchers().len() as usize,
            ),
            old(self).wf() ==> final(self).wf(),
    {
        let index = self.fetchers.len();
        self.fetchers.push(fetcher);
        self.selected.push(index);
    }

    /// Registers the four built-in probes - liveness first, so it can abort
    /// the chain and set the adaptive timeout - and selects everything
    /// registered, in registration order.
    pub fn register_default_fetchers(&mut self, config: ScannerConfig)
        ensures
            final(self).spec_fetchers().len() == old(self).spec_fetchers().len() + 4,
            forall|i: int|
                0 <= i < old(self).spec_fetchers().len() ==> final(self).spec_fetchers()[i] == old(
                    self,
                ).spec_fetchers()[i],
            ({
                let base = old(self).spec_fetchers().len() as int;
                let fs = final(self).spec_fetchers();
                (fs[base] matches FetcherKind::Ping(p) && p.spec_config() == config)
                    && (fs[base + 1] matches FetcherKind::Hostname(_)) && (fs[base
                    + 2] matches FetcherKind::Ports(p) && p.spec_config() == config) && (fs[base
                    + 3] matches FetcherKind::Mac(_))
            }),
            final(self).spec_selected().len() == final(self).spec_fetchers().len(),
            ({
                let sel = final(self).spec_selected();
                forall|i: int| 0 <= i < sel.len() ==> (#[trigger] sel[i] as int) == i
            }),
            final(self).wf(),
    {
        let ping_config = config.clone();
        let ports_config = config;
        self.fetchers.push(FetcherKind::Ping(PingFetcher::new(ping_config)));
        self.fetchers.push(FetcherKind::Hostname(HostnameFetcher::new()));
        self.fetchers.push(FetcherKind::Ports(PortsFetcher::new(ports_config)));
        self.fetchers.push(FetcherKind::Mac(MacFetcher::new()));
        let mut selected: Vec<usize> = Vec::new();
        let mut i: usize = 0;
        let n = self.fetchers.len();
        while i < n
            invariant
                i <= n,
                selected@.len() == i,
                forall|k: int| 0 <= k < i ==> (#[trigger] selected@[k] as int) == k,
            decreases n - i,
        {
            selected.push(i);
            i += 1;
        }
        self.selected = selected;
    }

    /// The frozen, ordered snapshot of the probes selected to run.
    pub fn get_selected_fetchers(&self) -> (r: Vec<FetcherKind>)
        requires
            self.wf(),
        ensures
            r@.len() == self.spec_selected().len(),
            forall|i: int|
                0 <= i < r@.len() ==> #[trigger] r@[i] == self.spec_fetchers()[self.spec_selected(
                )[i] as int],
    {
        let mut r: Vec<FetcherKind> = Vec::new();
        let mut i: usize = 0;
        let n = self.selected.len();
        while i < n
            invariant
                self.wf(),
                i <= n,
                n == self.spec_selected().len(),
                r@.len() == i,
                forall|k: int|
                    0 <= k < i ==> #[trigger] r@[k] == self.spec_fetchers()[self.spec_selected(
                    )[k] as int],
            decreases n - i,
        {
            let idx = self.selected[i];
            r.push(self.fetchers[idx].clone());
            i += 1;
        }
        r
    }
}

impl Default for FetcherRegistry {
    fn default() -> (r: Self)
        ensures
            r.spec_fetchers().len() == 0,
            r.spec_selected().len() == 0,
            r.wf(),
    {
        FetcherRegistry::new()
    }
}

} // verus!
