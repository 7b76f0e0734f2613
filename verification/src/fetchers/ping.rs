//! The liveness probe's decision rules: classification from the observed
//! round-trip samples, the averaged output text, and the adaptive port-probe
//! timeout derived from this host's latency alone.

use vstd::prelude::*;
use vstd::string::StringExecFns;

use crate::config::ScannerConfig;
use crate::fetchers::traits::Fetcher;
use crate::result::ResultType;
use crate::subject::ScanningSubject;
use crate::text::{spec_dec, u64_to_dec};

verus! {

/// Upper bound on a usable ping timeout, so that sums and the tripled
/// average stay within the machine word.
pub const MAX_PING_TIMEOUT_MS: u64 = 0xFFFFFFFFFFFFFF;

/// How many of the per-attempt samples came back.
pub open spec fn succ_count(samples: Seq<Option<u64>>) -> int
    decreases samples.len(),
{
    if samples.len() == 0 {
        0
    } else {
        succ_count(samples.drop_last()) + if samples.last() is Some {
            1int
        } else {
            0int
        }
    }
}

/// Total round-trip time of the samples that came back.
pub open spec fn total_rtt(samples: Seq<Option<u64>>) -> int
    decreases samples.len(),
{
    if samples.len() == 0 {
        0
    } else {
        total_rtt(samples.drop_last()) + match samples.last() {
            Some(v) => v as int,
            None => 0int,
        }
    }
}

/// The adapted per-host port-probe bound: three times the average
/// round-trip, floored at the configured minimum.
pub open spec fn adapted_bound(avg: int, floor: int) -> int {
    if 3 * avg >= floor {
        3 * avg
    } else {
        floor
    }
}

pub struct PingFetcher {
    config: ScannerConfig,
}

impl PingFetcher {
    pub closed spec fn spec_config(&self) -> ScannerConfig {
        self.config
    }

    pub fn new(config: ScannerConfig) -> (r: Self)
        ensures
            r.spec_config() == config,
    {
        PingFetcher { config }
    }

    pub fn duplicate(&self) -> (r: Self)
        ensures
            r == *self,
    {
        PingFetcher { config: self.config.clone() }
    }

    /// Applies the liveness outcome to the subject: one sample or more back
    /// means Alive, with the averaged text and, when adaptation is on, the
    /// adapted timeout stored for the port probe; none back means Dead, the
    /// no-data sentinel, and - unless dead hosts stay scanned - the abort
    /// flag for the rest of this host's chain.
    pub fn evaluate(&self, subject: &mut ScanningSubject, samples: &Vec<Option<u64>>) -> (r:
        String)
        requires
            samples@.len() == self.spec_config().ping_count as int,
            forall|i: int|
                0 <= i < samples@.len() ==> (#[trigger] samples@[i] matches Some(v) ==> v
                    <= self.spec_config().ping_timeout_ms),
            self.spec_config().ping_timeout_ms <= MAX_PING_TIMEOUT_MS,
        ensures
            final(subject).spec_address() == old(subject).spec_address(),
            final(subject).spec_config() == old(subject).spec_config(),
            final(subject).param_entries() == old(subject).param_entries(),
            succ_count(samples@) > 0 ==> ({
                let avg = total_rtt(samples@) / succ_count(samples@);
                final(subject).spec_result_type() == ResultType::Alive && r@ == spec_dec(avg)
                    + " ms"@ && final(subject).spec_aborted() == old(subject).spec_aborted() && (
                self.spec_config().adapt_port_timeout ==> final(subject).spec_adapted() == Some(
                    adapted_bound(avg, self.spec_config().min_port_timeout_ms as int) as u64,
                )) && (!self.spec_config().adapt_port_timeout ==> final(subject).spec_adapted()
                    == old(subject).spec_adapted())
            }),
            succ_count(samples@) == 0 ==> (final(subject).spec_result_type() == ResultType::Dead
                && r@ == "[n/a]"@ && final(subject).spec_aborted() == (old(subject).spec_aborted()
                || !self.spec_config().scan_dead_hosts) && final(subject).spec_adapted() == old(
                subject,
            ).spec_adapted()),
    {
        let n = samples.len();
        let mut succ: u64 = 0;
        let mut total: u64 = 0;
        let mut i: usize = 0;
        while i < n
            invariant
                n == samples@.len(),
                n <= 255,
                i <= n,
                forall|k: int|
                    0 <= k < samples@.len() ==> (#[trigger] samples@[k] matches Some(v) ==> v
                        <= self.spec_config().ping_timeout_ms),
                self.spec_config().ping_timeout_ms <= MAX_PING_TIMEOUT_MS,
                succ == succ_count(samples@.take(i as int)),
                total == total_rtt(samples@.take(i as int)),
                succ <= i,
                total <= succ * self.spec_config().ping_timeout_ms,
            decreases n - i,
        {
            proof {
                assert(samples@.take(i as int + 1).drop_last() =~= samples@.take(i as int));
                assert(samples@.take(i as int + 1).last() == samples@[i as int]);
            }
            match samples[i] {
                Some(v) => {
                    proof {
                        let t = self.spec_config().ping_timeout_ms as int;
                        assert(total + v <= (succ + 1) * t) by (nonlinear_arith)
                            requires
                                total <= succ * t,
                                v <= t,
                                succ >= 0,
                                t >= 0,
                        ;
                        assert((succ + 1) * t <= 256 * (MAX_PING_TIMEOUT_MS as int))
                            by (nonlinear_arith)
                            requires
                                succ + 1 <= 256,
                                0 <= t <= MAX_PING_TIMEOUT_MS as int,
                        ;
                    }
                    total = total + v;
                    succ = succ + 1;
                },
                None => {},
            }
            i += 1;
        }
        proof {
            assert(samples@.take(n as int) =~= samples@);
        }
        if succ > 0 {
            subject.set_result_type(ResultType::Alive);
            let avg: u64 = total / succ;
            proof {
                let t = self.spec_config().ping_timeout_ms as int;
                vstd::arithmetic::div_mod::lemma_div_is_ordered(
                    total as int,
                    succ as int * t,
                    succ as int,
                );
                vstd::arithmetic::div_mod::lemma_div_by_multiple(t, succ as int);
                assert(succ as int * t == t * succ as int);
                assert(avg <= t);
            }
            if self.config.adapt_port_timeout {
                let tripled: u64 = avg * 3;
                let adapted: u64 = if tripled >= self.config.min_port_timeout_ms {
                    tripled
                } else {
                    self.config.min_port_timeout_ms
                };
                subject.set_adapted_port_timeout(adapted);
            }
            let mut out = u64_to_dec(avg);
            out.append(" ms");
            out
        } else {
            subject.set_result_type(ResultType::Dead);
            if !self.config.scan_dead_hosts {
                subject.abort();
            }
            String::from_str("[n/a]")
        }
    }
}

impl Fetcher for PingFetcher {
    fn id(&self) -> (r: String)
        ensures
            r@ == "ping"@,
    {
        String::from_str("ping")
    }

    fn name(&self) -> (r: String)
        ensures
            r@ == "Ping"@,
    {
        String::from_str("Ping")
    }
}

} // verus!
