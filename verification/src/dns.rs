//! Instrumented DNS resolution for clients of AWS endpoints.
//!
//! [`DirectDnsResolver`] resolves names like the default resolver, and only adds metrics. The lookup
//! itself is the caller's.
use crate::metrics::{MetricDescription, MetricKind};
use vstd::prelude::*;

verus! {

/// How a DNS lookup went.
#[derive(Clone, Copy, Debug, PartialEq, Eq, Structural)]
pub enum DnsLookupOutcome {
    /// The lookup resolved the host.
    Resolved,
    /// The lookup failed.
    Error,
    /// The lookup returned no address at all.
    Empty,
}

impl DnsLookupOutcome {
    /// The label of the outcome.
    pub fn as_str(&self) -> (label: &'static str)
        ensures
            label@ == match self {
                DnsLookupOutcome::Resolved => "resolved"@,
                DnsLookupOutcome::Error => "error"@,
                DnsLookupOutcome::Empty => "empty"@,
            },
    {
        match self {
            DnsLookupOutcome::Resolved => "resolved",
            DnsLookupOutcome::Error => "error",
            DnsLookupOutcome::Empty => "empty",
        }
    }
}

/// An IP address, as a number.
#[derive(Clone, Copy, Debug, PartialEq, Eq, Structural)]
pub enum IpAddress {
    V4(u32),
    V6(u128),
}

/// An IP address with a port.
#[derive(Clone, Copy, Debug, PartialEq, Eq, Structural)]
pub struct SocketAddress {
    pub ip: IpAddress,
    pub port: u16,
}

/// Metrics for the DNS resolution performed when opening a connection to an AWS endpoint.
///
/// The resolver serves every AWS client of the process, not just object storage. Counts wrap
/// around.
#[derive(Debug)]
pub struct DnsMetrics {
    pub resolve_duration_seconds: MetricDescription,
    pub resolved: u64,
    pub errors: u64,
    pub empty: u64,
}

impl DnsMetrics {
    /// The number of lookups with this outcome.
    pub open spec fn count(self, outcome: DnsLookupOutcome) -> u64 {
        match outcome {
            DnsLookupOutcome::Resolved => self.resolved,
            DnsLookupOutcome::Error => self.errors,
            DnsLookupOutcome::Empty => self.empty,
        }
    }
}

impl Default for DnsMetrics {
    fn default() -> (metrics: DnsMetrics)
        ensures
            forall|outcome: DnsLookupOutcome| #[trigger] metrics.count(outcome) == 0,
            metrics.resolve_duration_seconds.describes(
                MetricKind::Histogram,
                "dns_resolve_duration_seconds"@,
                "Time spent in a `getaddrinfo` call resolving an AWS endpoint, for every AWS client in the process. Cache hits are not recorded."@,
                "storage"@,
                Seq::empty(),
                Seq::empty(),
                seq![
                    1_000,
                    2_000,
                    5_000,
                    10_000,
                    25_000,
                    50_000,
                    100_000,
                    250_000,
                    500_000,
                    1_000_000,
                    2_500_000,
                    5_000_000,
                    10_000_000,
                ],
            ),
    {
        DnsMetrics {
            resolve_duration_seconds: MetricDescription::plain(
                MetricKind::Histogram,
                "dns_resolve_duration_seconds",
                "Time spent in a `getaddrinfo` call resolving an AWS endpoint, for every AWS client in the process. Cache hits are not recorded.",
                "storage",
                vec![
                    1_000,
                    2_000,
                    5_000,
                    10_000,
                    25_000,
                    50_000,
                    100_000,
                    250_000,
                    500_000,
                    1_000_000,
                    2_500_000,
                    5_000_000,
                    10_000_000,
                ],
            ),
            resolved: 0,
            errors: 0,
            empty: 0,
        }
    }
}

impl DnsMetrics {
    /// Counts a lookup.
    pub fn record_lookup(&mut self, outcome: DnsLookupOutcome)
        ensures
            final(self).resolve_duration_seconds == old(self).resolve_duration_seconds,
            forall|other: DnsLookupOutcome| #[trigger]
                final(self).count(other) == if other == outcome {
                    old(self).count(other).wrapping_add(1)
                } else {
                    old(self).count(other)
                },
    {
        match outcome {
            DnsLookupOutcome::Resolved => {
                self.resolved = self.resolved.wrapping_add(1);
            },
            DnsLookupOutcome::Error => {
                self.errors = self.errors.wrapping_add(1);
            },
            DnsLookupOutcome::Empty => {
                self.empty = self.empty.wrapping_add(1);
            },
        }
    }

    /// Returns the number of lookups with this outcome.
    pub fn lookup_count(&self, outcome: DnsLookupOutcome) -> (count: u64)
        ensures
            count == self.count(outcome),
    {
        match outcome {
            DnsLookupOutcome::Resolved => self.resolved,
            DnsLookupOutcome::Error => self.errors,
            DnsLookupOutcome::Empty => self.empty,
        }
    }
}

/// The outcome of a lookup.
pub open spec fn outcome_of<E>(lookup: Result<Vec<SocketAddress>, E>) -> DnsLookupOutcome {
    match lookup {
        Err(_) => DnsLookupOutcome::Error,
        Ok(addresses) => if addresses@.len() == 0 {
            DnsLookupOutcome::Empty
        } else {
            DnsLookupOutcome::Resolved
        },
    }
}

/// A resolver that measures lookups without changing them: nothing is cached, every call pays for a
/// lookup.
#[derive(Debug, Clone, Copy, Default)]
pub struct DirectDnsResolver;

impl DirectDnsResolver {
    /// Takes the addresses that a lookup found, recording how it went.
    pub fn resolve_host<E>(
        &self,
        metrics: &mut DnsMetrics,
        lookup: Result<Vec<SocketAddress>, E>,
    ) -> (resolved: Result<Vec<IpAddress>, E>)
        ensures
            final(metrics).resolve_duration_seconds == old(metrics).resolve_duration_seconds,
            forall|other: DnsLookupOutcome| #[trigger]
                final(metrics).count(other) == if other == outcome_of(lookup) {
                    old(metrics).count(other).wrapping_add(1)
                } else {
                    old(metrics).count(other)
                },
            match lookup {
                Err(error) => resolved == Err::<Vec<IpAddress>, E>(error),
                Ok(addresses) => resolved matches Ok(ips) && ips@ == addresses@.map_values(
                    |address: SocketAddress| address.ip,
                ),
            },
    {
        match lookup {
            Err(error) => {
                metrics.record_lookup(DnsLookupOutcome::Error);
                Err(error)
            },
            Ok(addresses) => {
                let mut ips: Vec<IpAddress> = Vec::new();
                for i in 0..addresses.len()
                    invariant
                        ips@.len() == i,
                        forall|k: int| 0 <= k < i ==> #[trigger] ips@[k] == addresses@[k].ip,
                {
                    ips.push(addresses[i].ip);
                }
                if ips.len() == 0 {
                    metrics.record_lookup(DnsLookupOutcome::Empty);
                } else {
                    metrics.record_lookup(DnsLookupOutcome::Resolved);
                }
                proof {
                    assert(ips@ =~= addresses@.map_values(|address: SocketAddress| address.ip));
                }
                Ok(ips)
            },
        }
    }
}

/// A lookup that failed is an error, one without any address is empty, and any other has resolved the
/// host. Each outcome has its own count.
pub proof fn law_outcome_of_a_lookup<E>(lookup: Result<Vec<SocketAddress>, E>, metrics: DnsMetrics)
    ensures
        outcome_of(lookup) == DnsLookupOutcome::Error <==> lookup is Err,
        outcome_of(lookup) == DnsLookupOutcome::Empty <==> lookup is Ok && lookup->Ok_0@.len() == 0,
        outcome_of(lookup) == DnsLookupOutcome::Resolved <==> lookup is Ok && lookup->Ok_0@.len()
            > 0,
        metrics.count(DnsLookupOutcome::Resolved) == metrics.resolved,
        metrics.count(DnsLookupOutcome::Error) == metrics.errors,
        metrics.count(DnsLookupOutcome::Empty) == metrics.empty,
{
}

} // verus!
