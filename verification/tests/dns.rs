use quickwit::dns::{
    DirectDnsResolver, DnsLookupOutcome, DnsMetrics, IpAddress, SocketAddress,
};
use quickwit::metrics::{exponential_buckets, CliMetrics, MetricKind};

fn localhost() -> Vec<SocketAddress> {
    vec![
        SocketAddress { ip: IpAddress::V6(1), port: 0 },
        SocketAddress { ip: IpAddress::V4(0x7f00_0001), port: 0 },
    ]
}

#[test]
fn test_direct_dns_resolver_resolves_localhost() {
    let resolver = DirectDnsResolver;
    let mut metrics = DnsMetrics::default();
    let ip_addresses = resolver.resolve_host(&mut metrics, Ok::<_, ()>(localhost())).unwrap();
    assert_eq!(ip_addresses, [IpAddress::V6(1), IpAddress::V4(0x7f00_0001)]);
}

#[test]
fn test_direct_dns_resolver_counts_every_lookup() {
    let resolver = DirectDnsResolver;
    let mut metrics = DnsMetrics::default();
    for _ in 0..2 {
        resolver.resolve_host(&mut metrics, Ok::<_, ()>(localhost())).unwrap();
    }
    // Nothing is cached, so every call pays for a lookup.
    assert_eq!(metrics.lookup_count(DnsLookupOutcome::Resolved), 2);
    assert_eq!(metrics.lookup_count(DnsLookupOutcome::Error), 0);
}

#[test]
fn test_direct_dns_resolver_counts_failed_lookups() {
    let resolver = DirectDnsResolver;
    let mut metrics = DnsMetrics::default();
    assert_eq!(
        resolver.resolve_host(&mut metrics, Err("not found")).unwrap_err(),
        "not found"
    );
    assert_eq!(metrics.lookup_count(DnsLookupOutcome::Error), 1);
    assert_eq!(metrics.lookup_count(DnsLookupOutcome::Resolved), 0);
}

#[test]
fn test_direct_dns_resolver_counts_empty_lookups() {
    let resolver = DirectDnsResolver;
    let mut metrics = DnsMetrics::default();
    assert!(resolver.resolve_host(&mut metrics, Ok::<_, ()>(Vec::new())).unwrap().is_empty());
    assert_eq!(metrics.lookup_count(DnsLookupOutcome::Empty), 1);
}

#[test]
fn test_lookup_outcome_labels() {
    assert_eq!(DnsLookupOutcome::Resolved.as_str(), "resolved");
    assert_eq!(DnsLookupOutcome::Error.as_str(), "error");
    assert_eq!(DnsLookupOutcome::Empty.as_str(), "empty");
}

#[test]
fn test_resolve_duration_histogram() {
    let metrics = DnsMetrics::default();
    let description = &metrics.resolve_duration_seconds;
    assert_eq!(description.kind, MetricKind::Histogram);
    assert_eq!(description.name, "dns_resolve_duration_seconds");
    assert_eq!(description.subsystem, "storage");
    assert_eq!(description.buckets.len(), 13);
    assert_eq!(description.buckets[12], 10_000_000);
}

#[test]
fn test_cli_metrics() {
    let metrics = CliMetrics::default();
    assert_eq!(
        metrics.thread_unpark_duration_microseconds.buckets,
        [5, 25, 125, 625, 3_125]
    );
    assert_eq!(metrics.thread_unpark_cpu_time_microseconds_total.subsystem, "cli");
    assert_eq!(exponential_buckets(3, 10, 4), [3, 30, 300, 3_000]);
}
