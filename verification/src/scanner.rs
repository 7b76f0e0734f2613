//! The orchestrator's verified core: the per-host probe pipeline with its
//! stop rule, and the permit-counted dispatch model that bounds concurrency
//! and accounts for every host.

use vstd::prelude::*;

use crate::address::IpAddress;
use crate::config::ScannerConfig;
use crate::errors::ScanError;
use crate::fetchers::ping::{adapted_bound, succ_count, total_rtt, MAX_PING_TIMEOUT_MS};
use crate::fetchers::ports::PortsFetcher;
use crate::fetchers::registry::{FetcherKind, FetcherRegistry};
use crate::fetchers::traits::Fetcher;
use crate::ports::{in_spec_ports, spec_compress, spec_ports_ok};
use crate::result::{ResultType, ScanningResult};
use crate::subject::ScanningSubject;
use crate::text::{spec_dec, spec_trim};

verus! {

/// What the outside gathered for one probe.
pub enum ProbeObservation {
    /// Per-attempt round-trip times in milliseconds; `None` is a timed-out
    /// or failed attempt.
    Ping(Vec<Option<u64>>),
    /// The reverse-looked-up name, if the lookup produced one.
    Hostname(Option<String>),
    /// The requested ports that answered a connect attempt.
    Ports(Vec<u16>),
    /// The neighbor-table entry for the host, if one was found.
    Mac(Option<String>),
}

/// Whether an observation belongs to the given probe.
pub open spec fn obs_matches(obs: &ProbeObservation, f: &FetcherKind) -> bool {
    match (obs, f) {
        (ProbeObservation::Ping(_), FetcherKind::Ping(_)) => true,
        (ProbeObservation::Hostname(_), FetcherKind::Hostname(_)) => true,
        (ProbeObservation::Ports(_), FetcherKind::Ports(_)) => true,
        (ProbeObservation::Mac(_), FetcherKind::Mac(_)) => true,
        _ => false,
    }
}

/// Whether the record holds exactly `text` under `key`.
pub open spec fn recorded(rec: ScanningResult, key: Seq<char>, text: Seq<char>) -> bool {
    match rec.spec_value(key) {
        Some(out) => out@ == text,
        None => false,
    }
}

/// Whether every config-bound probe in a chain carries the given shared
/// configuration.
pub open spec fn chain_consistent(fetchers: Seq<FetcherKind>, config: ScannerConfig) -> bool {
    forall|i: int|
        0 <= i < fetchers.len() ==> match #[trigger] fetchers[i] {
            FetcherKind::Ping(p) => p.spec_config() == config,
            FetcherKind::Ports(p) => p.spec_config() == config,
            _ => true,
        }
}

/// One host's probe chain: a fresh subject threaded through the selected
/// probes in order, building up the record, until the chain ends or the
/// abort rule stops it.
pub struct HostPipeline {
    subject: ScanningSubject,
    result: ScanningResult,
    fetchers: Vec<FetcherKind>,
    index: usize,
}

impl HostPipeline {
    pub closed spec fn spec_subject(&self) -> ScanningSubject {
        self.subject
    }

    pub closed spec fn spec_result(&self) -> ScanningResult {
        self.result
    }

    pub closed spec fn spec_fetchers(&self) -> Seq<FetcherKind> {
        self.fetchers@
    }

    pub closed spec fn spec_index(&self) -> int {
        self.index as int
    }

    /// All probes share the subject's configuration.
    pub open spec fn wf(&self) -> bool {
        chain_consistent(self.spec_fetchers(), self.spec_subject().spec_config())
    }

    pub fn new(address: IpAddress, config: ScannerConfig, fetchers: Vec<FetcherKind>) -> (r: Self)
        requires
            chain_consistent(fetchers@, config),
        ensures
            r.wf(),
            r.spec_subject().spec_address() == address,
            r.spec_subject().spec_config() == config,
            r.spec_subject().spec_result_type() == ResultType::Unknown,
            !r.spec_subject().spec_aborted(),
            r.spec_subject().spec_adapted() is None,
            r.spec_result().spec_address() == address,
            r.spec_result().spec_result_type() == ResultType::Unknown,
            r.spec_result().value_entries() == Seq::<(String, String)>::empty(),
            r.spec_fetchers() == fetchers@,
            r.spec_index() == 0,
    {
        let result = ScanningResult::new(address);
        let subject = ScanningSubject::new(address, config);
        HostPipeline { subject, result, fetchers, index: 0 }
    }

    /// The chain's stop rule: there is a next probe, and the host is not
    /// aborted - or dead hosts are scanned anyway.
    pub fn should_continue(&self) -> (r: bool)
        ensures
            r == (self.spec_index() < self.spec_fetchers().len() && !(
            self.spec_subject().spec_aborted()
                && !self.spec_subject().spec_config().scan_dead_hosts)),
    {
        self.index < self.fetchers.len() && !(self.subject.is_aborted()
            && !self.subject.config().scan_dead_hosts)
    }

    /// The probe the chain runs next.
    pub fn current_fetcher(&self) -> (r: &FetcherKind)
        requires
            self.spec_index() < self.spec_fetchers().len(),
        ensures
            *r == self.spec_fetchers()[self.spec_index()],
    {
        &self.fetchers[self.index]
    }

    /// The ports to attempt for this host and the per-port bound, honouring
    /// the adapted timeout; an ill-formed specification is the probe's
    /// failure, and nothing else is.
    pub fn port_probe_plan(&self) -> (r: Result<(Vec<u16>, u64), ScanError>)
        ensures
            ({
                let ps = self.spec_subject().spec_config().port_string@;
                let bound = match self.spec_subject().spec_adapted() {
                    Some(t) => t,
                    None => self.spec_subject().spec_config().port_timeout_ms,
                };
                (r matches Ok((ports, t)) ==> t == bound && (forall|a: int, b: int|
                    0 <= a < b < ports@.len() ==> ports@[a] < ports@[b]) && ports@.len() <= 65535
                    && (spec_trim(ps).len() == 0 ==> ports@.len() == 0) && (spec_trim(ps).len() > 0
                    ==> (forall|p: u16| ports@.contains(p) <==> in_spec_ports(ps, p)))) && (
                r is Err <==> (spec_trim(ps).len() > 0 && !spec_ports_ok(ps))) && (r matches Err(e)
                    ==> e is PortScanFailed)
            }),
    {
        let fetcher = PortsFetcher::new(self.subject.config().clone());
        match fetcher.requested_ports() {
            Ok(it) => Ok((it.into_vec(), self.subject.adapted_port_timeout())),
            Err(e) => Err(e),
        }
    }

    /// Applies one probe's outcome: a failure is absorbed without a record,
    /// an observation is evaluated by the probe's rules, its output recorded
    /// under the probe's identifier, and the chain advances either way.
    pub fn step(&mut self, outcome: Result<ProbeObservation, ScanError>)
        requires
            old(self).wf(),
            old(self).spec_index() < old(self).spec_fetchers().len(),
            outcome matches Ok(obs) ==> obs_matches(
                &obs,
                &old(self).spec_fetchers()[old(self).spec_index()],
            ),
            outcome matches Ok(ProbeObservation::Ping(samples)) ==> ({
                let cfg = old(self).spec_subject().spec_config();
                samples@.len() == cfg.ping_count as int && (forall|i: int|
                    0 <= i < samples@.len() ==> (#[trigger] samples@[i] matches Some(v) ==> v
                        <= cfg.ping_timeout_ms)) && cfg.ping_timeout_ms <= MAX_PING_TIMEOUT_MS
            }),
        ensures
            final(self).wf(),
            final(self).spec_fetchers() == old(self).spec_fetchers(),
            final(self).spec_index() == old(self).spec_index() + 1,
            final(self).spec_subject().spec_address() == old(self).spec_subject().spec_address(),
            final(self).spec_subject().spec_config() == old(self).spec_subject().spec_config(),
            final(self).spec_result().spec_address() == old(self).spec_result().spec_address(),
            outcome is Err ==> (final(self).spec_subject() == old(self).spec_subject()
                && final(self).spec_result() == old(self).spec_result()),
            outcome matches Ok(ProbeObservation::Ping(samples)) ==> ({
                let sub0 = old(self).spec_subject();
                let sub1 = final(self).spec_subject();
                let rec = final(self).spec_result();
                let succ = succ_count(samples@);
                let avg = total_rtt(samples@) / succ;
                sub1.param_entries() == sub0.param_entries() && (succ > 0 ==> (
                sub1.spec_result_type() == ResultType::Alive && sub1.spec_aborted()
                    == sub0.spec_aborted() && (sub0.spec_config().adapt_port_timeout
                    ==> sub1.spec_adapted() == Some(
                    adapted_bound(avg, sub0.spec_config().min_port_timeout_ms as int) as u64,
                )) && (!sub0.spec_config().adapt_port_timeout ==> sub1.spec_adapted()
                    == sub0.spec_adapted()) && recorded(rec, "ping"@, spec_dec(avg) + " ms"@)))
                    && (succ == 0 ==> (sub1.spec_result_type() == ResultType::Dead
                    && sub1.spec_aborted() == (sub0.spec_aborted()
                    || !sub0.spec_config().scan_dead_hosts) && sub1.spec_adapted()
                    == sub0.spec_adapted() && recorded(rec, "ping"@, "[n/a]"@)))
            }),
            outcome matches Ok(ProbeObservation::Hostname(lookup)) ==> ({
                let rec = final(self).spec_result();
                final(self).spec_subject() == old(self).spec_subject() && (match lookup {
                    Some(h) => recorded(rec, "hostname"@, h@),
                    None => recorded(rec, "hostname"@, "[n/a]"@),
                })
            }),
            outcome matches Ok(ProbeObservation::Ports(open)) ==> ({
                let sub0 = old(self).spec_subject();
                let sub1 = final(self).spec_subject();
                let rec = final(self).spec_result();
                let requested = spec_trim(sub0.spec_config().port_string@).len() > 0;
                sub1.param_entries() == sub0.param_entries() && sub1.spec_aborted()
                    == sub0.spec_aborted() && sub1.spec_adapted() == sub0.spec_adapted() && (
                !requested ==> (sub1.spec_result_type() == sub0.spec_result_type() && recorded(
                    rec,
                    "ports"@,
                    "[n/s]"@,
                ))) && ((requested && open@.len() == 0) ==> (sub1.spec_result_type()
                    == sub0.spec_result_type() && recorded(rec, "ports"@, "[n/a]"@))) && ((
                requested && open@.len() > 0) ==> (sub1.spec_result_type()
                    == ResultType::WithPorts && recorded(rec, "ports"@, spec_compress(open@))))
            }),
            outcome matches Ok(ProbeObservation::Mac(entry)) ==> ({
                let rec = final(self).spec_result();
                final(self).spec_subject() == old(self).spec_subject() && (match entry {
                    Some(m) => recorded(rec, "mac"@, m@),
                    None => recorded(rec, "mac"@, "[n/a]"@),
                })
            }),
    {
        proof {
            vstd::std_specs::vec::axiom_spec_len(&self.fetchers);
        }
        match outcome {
            Err(_) => {
                self.index += 1;
            },
            Ok(obs) => {
                match (self.fetchers[self.index].clone(), obs) {
                    (FetcherKind::Ping(f), ProbeObservation::Ping(samples)) => {
                        let out = f.evaluate(&mut self.subject, &samples);
                        self.result.add_value(f.id(), out);
                    },
                    (FetcherKind::Hostname(f), ProbeObservation::Hostname(lookup)) => {
                        let out = f.evaluate(&lookup);
                        self.result.add_value(f.id(), out);
                    },
                    (FetcherKind::Ports(f), ProbeObservation::Ports(open)) => {
                        let out = f.evaluate(&mut self.subject, &open);
                        self.result.add_value(f.id(), out);
                    },
                    (FetcherKind::Mac(f), ProbeObservation::Mac(entry)) => {
                        let out = f.evaluate(&entry);
                        self.result.add_value(f.id(), out);
                    },
                    _ => {
                        proof {
                            assert(false);
                        }
                    },
                }
                self.index += 1;
            },
        }
    }

    /// Seals the record with the subject's final classification.
    pub fn finish(self) -> (r: ScanningResult)
        ensures
            r.spec_address() == self.spec_result().spec_address(),
            r.spec_result_type() == self.spec_subject().spec_result_type(),
            forall|k: Seq<char>| #[trigger] r.spec_value(k) == self.spec_result().spec_value(k),
            r.spec_mac() == self.spec_result().spec_mac(),
    {
        let HostPipeline { subject, mut result, fetchers: _, index: _ } = self;
        result.set_type(subject.result_type());
        result
    }
}

/// Law: once the liveness probe has classified a host Dead and dead hosts
/// are not scanned, the chain never continues, whatever probes remain.
pub proof fn lemma_dead_host_chain_stops(p: HostPipeline)
    requires
        p.spec_subject().spec_aborted(),
        !p.spec_subject().spec_config().scan_dead_hosts,
    ensures
        !(p.spec_index() < p.spec_fetchers().len() && !(p.spec_subject().spec_aborted() && !p.spec_subject().spec_config().scan_dead_hosts)),
{
}

/// The scanning engine: a frozen snapshot of the selected probes and the
/// shared configuration, handed to every host's pipeline.
pub struct Scanner {
    fetchers: Vec<FetcherKind>,
    config: ScannerConfig,
}

impl Scanner {
    pub closed spec fn spec_fetchers(&self) -> Seq<FetcherKind> {
        self.fetchers@
    }

    pub closed spec fn spec_config(&self) -> ScannerConfig {
        self.config
    }

    /// All probes in the snapshot share the scanner's configuration.
    pub open spec fn wf(&self) -> bool {
        chain_consistent(self.spec_fetchers(), self.spec_config())
    }

    /// Takes the registry's selection as an immutable snapshot; registration
    /// is over before any pipeline starts.
    pub fn new(registry: &FetcherRegistry, config: ScannerConfig) -> (r: Self)
        requires
            registry.wf(),
            forall|i: int|
                0 <= i < registry.spec_selected().len()
                    ==> match #[trigger] registry.spec_fetchers()[registry.spec_selected()[i] as int] {
                    FetcherKind::Ping(p) => p.spec_config() == config,
                    FetcherKind::Ports(p) => p.spec_config() == config,
                    _ => true,
                },
        ensures
            r.wf(),
            r.spec_fetchers().len() == registry.spec_selected().len(),
            forall|i: int|
                0 <= i < r.spec_fetchers().len() ==> #[trigger] r.spec_fetchers()[i]
                    == registry.spec_fetchers()[registry.spec_selected()[i] as int],
            r.spec_config() == config,
    {
        Scanner { fetchers: registry.get_selected_fetchers(), config }
    }

    /// A fresh pipeline for one host, over the frozen snapshot.
    pub fn start_pipeline(&self, address: IpAddress) -> (r: HostPipeline)
        requires
            self.wf(),
        ensures
            r.wf(),
            r.spec_subject().spec_address() == address,
            r.spec_subject().spec_config() == self.spec_config(),
            r.spec_subject().spec_result_type() == ResultType::Unknown,
            !r.spec_subject().spec_aborted(),
            r.spec_subject().spec_adapted() is None,
            r.spec_result().spec_address() == address,
            r.spec_result().spec_result_type() == ResultType::Unknown,
            r.spec_result().value_entries() == Seq::<(String, String)>::empty(),
            r.spec_fetchers() == self.spec_fetchers(),
            r.spec_index() == 0,
    {
        let mut fetchers: Vec<FetcherKind> = Vec::new();
        let mut i: usize = 0;
        let n = self.fetchers.len();
        while i < n
            invariant
                i <= n,
                n == self.spec_fetchers().len(),
                fetchers@ =~= self.spec_fetchers().take(i as int),
            decreases n - i,
        {
            fetchers.push(self.fetchers[i].clone());
            i += 1;
        }
        proof {
            assert(fetchers@ =~= self.spec_fetchers());
        }
        HostPipeline::new(address, self.config.clone(), fetchers)
    }

    /// A fresh dispatch state for this configuration's concurrency bound.
    pub fn dispatcher(&self) -> (r: DispatchState)
        requires
            self.spec_config().max_threads >= 1,
        ensures
            r.wf(),
            r.spec_limit() == self.spec_config().max_threads,
            r.spec_active() == 0,
            r.spec_started() == 0,
            r.spec_faulted() == 0,
            r.spec_results().len() == 0,
    {
        DispatchState::new(self.config.max_threads)
    }
}

/// The dispatch loop's permit accounting: how many pipelines are active,
/// started, completed and faulted, and the aggregate of completed records.
pub struct DispatchState {
    limit: usize,
    active: usize,
    started: usize,
    completed: usize,
    faulted: usize,
    results: Vec<ScanningResult>,
}

impl DispatchState {
    pub closed spec fn spec_limit(&self) -> int {
        self.limit as int
    }

    pub closed spec fn spec_active(&self) -> int {
        self.active as int
    }

    pub closed spec fn spec_started(&self) -> int {
        self.started as int
    }

    pub closed spec fn spec_completed(&self) -> int {
        self.completed as int
    }

    pub closed spec fn spec_faulted(&self) -> int {
        self.faulted as int
    }

    pub closed spec fn spec_results(&self) -> Seq<ScanningResult> {
        self.results@
    }

    /// The counters `(active, started, completed, faulted)` of the abstract
    /// dispatch model this state implements.
    pub open spec fn counters(&self) -> (int, int, int, int) {
        (self.spec_active(), self.spec_started(), self.spec_completed(), self.spec_faulted())
    }

    /// The model's invariant: active pipelines never exceed the permit
    /// limit, and every started pipeline is active, completed or faulted -
    /// with one record per completed host.
    pub open spec fn wf(&self) -> bool {
        self.spec_limit() >= 1 && 0 <= self.spec_active() <= self.spec_limit()
            && self.spec_active() + self.spec_completed() + self.spec_faulted()
            == self.spec_started() && self.spec_results().len() == self.spec_completed()
    }

    pub fn new(max_threads: usize) -> (r: Self)
        requires
            max_threads >= 1,
        ensures
            r.wf(),
            r.spec_limit() == max_threads,
            r.spec_active() == 0,
            r.spec_started() == 0,
            r.spec_completed() == 0,
            r.spec_faulted() == 0,
            r.spec_results().len() == 0,
    {
        DispatchState {
            limit: max_threads,
            active: 0,
            started: 0,
            completed: 0,
            faulted: 0,
            results: Vec::new(),
        }
    }

    /// Whether a permit is free: the dispatch loop's sole backpressure
    /// decision.
    pub fn can_dispatch(&self) -> (r: bool)
        ensures
            r == (self.spec_active() < self.spec_limit()),
    {
        self.active < self.limit
    }

    /// Starts one host's pipeline under a free permit.
    pub fn dispatch(&mut self)
        requires
            old(self).wf(),
            old(self).spec_active() < old(self).spec_limit(),
            old(self).spec_started() < usize::MAX,
        ensures
            final(self).wf(),
            final(self).spec_limit() == old(self).spec_limit(),
            final(self).spec_active() == old(self).spec_active() + 1,
            final(self).spec_started() == old(self).spec_started() + 1,
            final(self).spec_completed() == old(self).spec_completed(),
            final(self).spec_faulted() == old(self).spec_faulted(),
            final(self).spec_results() == old(self).spec_results(),
            dispatch_step(old(self).spec_limit(), old(self).counters(), DispatchEvent::Start)
                == Some(final(self).counters()),
    {
        self.active += 1;
        self.started += 1;
    }

    /// A pipeline finished: its permit frees and its record joins the
    /// aggregate.
    pub fn complete(&mut self, result: ScanningResult)
        requires
            old(self).wf(),
            old(self).spec_active() >= 1,
        ensures
            final(self).wf(),
            final(self).spec_limit() == old(self).spec_limit(),
            final(self).spec_active() == old(self).spec_active() - 1,
            final(self).spec_started() == old(self).spec_started(),
            final(self).spec_completed() == old(self).spec_completed() + 1,
            final(self).spec_faulted() == old(self).spec_faulted(),
            final(self).spec_results() == old(self).spec_results().push(result),
            dispatch_step(old(self).spec_limit(), old(self).counters(), DispatchEvent::Complete)
                == Some(final(self).counters()),
    {
        self.active -= 1;
        self.completed += 1;
        self.results.push(result);
    }

    /// A pipeline faulted unexpectedly: its permit frees and the host is
    /// left out of the aggregate; the scan as a whole goes on.
    pub fn fault(&mut self)
        requires
            old(self).wf(),
            old(self).spec_active() >= 1,
        ensures
            final(self).wf(),
            final(self).spec_limit() == old(self).spec_limit(),
            final(self).spec_active() == old(self).spec_active() - 1,
            final(self).spec_started() == old(self).spec_started(),
            final(self).spec_completed() == old(self).spec_completed(),
            final(self).spec_faulted() == old(self).spec_faulted() + 1,
            final(self).spec_results() == old(self).spec_results(),
            dispatch_step(old(self).spec_limit(), old(self).counters(), DispatchEvent::Fault)
                == Some(final(self).counters()),
    {
        self.active -= 1;
        self.faulted += 1;
    }

    pub fn active_count(&self) -> (r: usize)
        ensures
            r == self.spec_active(),
    {
        self.active
    }

    /// The aggregate, once every pipeline has finished.
    pub fn into_results(self) -> (r: Vec<ScanningResult>)
        ensures
            r@ == self.spec_results(),
    {
        self.results
    }
}

/// Law: when every pipeline has finished and none faulted, the aggregate
/// holds exactly one record per started host.
pub proof fn lemma_all_hosts_accounted(d: DispatchState)
    requires
        d.wf(),
        d.spec_active() == 0,
        d.spec_faulted() == 0,
    ensures
        d.spec_results().len() == d.spec_started(),
{
}

/// One abstract step of the dispatch model over the counters
/// `(active, started, completed, faulted)`; `None` when the event is not
/// enabled, in particular a start without a free permit.
pub open spec fn dispatch_step(limit: int, st: (int, int, int, int), e: DispatchEvent) -> Option<
    (int, int, int, int),
> {
    match e {
        DispatchEvent::Start => if st.0 < limit {
            Some((st.0 + 1, st.1 + 1, st.2, st.3))
        } else {
            None
        },
        DispatchEvent::Complete => if st.0 >= 1 {
            Some((st.0 - 1, st.1, st.2 + 1, st.3))
        } else {
            None
        },
        DispatchEvent::Fault => if st.0 >= 1 {
            Some((st.0 - 1, st.1, st.2, st.3 + 1))
        } else {
            None
        },
    }
}

/// One event in a dispatch loop's life: a pipeline starts under a permit,
/// completes with its record, or faults.
pub enum DispatchEvent {
    Start,
    Complete,
    Fault,
}

pub open spec fn dispatch_run(limit: int, st: (int, int, int, int), events: Seq<DispatchEvent>) -> Option<
    (int, int, int, int),
>
    decreases events.len(),
{
    if events.len() == 0 {
        Some(st)
    } else {
        match dispatch_step(limit, st, events[0]) {
            Some(st2) => dispatch_run(limit, st2, events.drop_first()),
            None => None,
        }
    }
}

pub open spec fn dispatch_inv(limit: int, st: (int, int, int, int)) -> bool {
    0 <= st.0 <= limit && st.2 >= 0 && st.3 >= 0 && st.0 + st.2 + st.3 == st.1
}

/// Law: whatever sequence of starts, completions and faults a scan
/// interleaves, at no instant do active pipelines exceed the permit limit,
/// and the accounting of started hosts always balances.
pub proof fn lemma_dispatch_run_bounded(
    limit: int,
    st: (int, int, int, int),
    events: Seq<DispatchEvent>,
)
    requires
        dispatch_inv(limit, st),
        dispatch_run(limit, st, events) is Some,
    ensures
        dispatch_inv(limit, dispatch_run(limit, st, events).unwrap()),
    decreases events.len(),
{
    if events.len() > 0 {
        let st2 = dispatch_step(limit, st, events[0]).unwrap();
        lemma_dispatch_run_bounded(limit, st2, events.drop_first());
    }
}

/// How many events of a run start a pipeline.
pub open spec fn count_starts(events: Seq<DispatchEvent>) -> int
    decreases events.len(),
{
    if events.len() == 0 {
        0
    } else {
        (if events[0] is Start {
            1int
        } else {
            0int
        }) + count_starts(events.drop_first())
    }
}

/// How many events of a run fault a pipeline.
pub open spec fn count_faults(events: Seq<DispatchEvent>) -> int
    decreases events.len(),
{
    if events.len() == 0 {
        0
    } else {
        (if events[0] is Fault {
            1int
        } else {
            0int
        }) + count_faults(events.drop_first())
    }
}

proof fn lemma_dispatch_run_counts(
    limit: int,
    st: (int, int, int, int),
    events: Seq<DispatchEvent>,
)
    requires
        dispatch_run(limit, st, events) is Some,
    ensures
        dispatch_run(limit, st, events).unwrap().1 == st.1 + count_starts(events),
        dispatch_run(limit, st, events).unwrap().3 == st.3 + count_faults(events),
    decreases events.len(),
{
    if events.len() > 0 {
        let st2 = dispatch_step(limit, st, events[0]).unwrap();
        lemma_dispatch_run_counts(limit, st2, events.drop_first());
    }
}

/// Law: a scan that starts idle, interleaves its events in any order the
/// model admits, faults nowhere and ends with no pipeline active has
/// completed exactly one host per address fed to it.
pub proof fn lemma_every_fed_address_completes(limit: int, events: Seq<DispatchEvent>)
    requires
        limit >= 1,
        dispatch_run(limit, (0, 0, 0, 0), events) matches Some(st) && st.0 == 0,
        count_faults(events) == 0,
    ensures
        dispatch_run(limit, (0, 0, 0, 0), events).unwrap().2 == count_starts(events),
{
    lemma_dispatch_run_bounded(limit, (0, 0, 0, 0), events);
    lemma_dispatch_run_counts(limit, (0, 0, 0, 0), events);
}

} // verus!
