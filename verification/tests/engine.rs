use ipscan_rs::fetchers::hostname::HostnameFetcher;
use ipscan_rs::fetchers::mac::MacFetcher;
use ipscan_rs::fetchers::ping::PingFetcher;
use ipscan_rs::fetchers::ports::PortsFetcher;
use ipscan_rs::fetchers::registry::{FetcherKind, FetcherRegistry};
use ipscan_rs::fetchers::traits::Fetcher;
use ipscan_rs::scanner::{DispatchState, ProbeObservation};
use ipscan_rs::{IpAddress, ResultType, ScanError, Scanner, ScannerConfig, ScanningResult,
    ScanningSubject};

#[test]
fn test_fetcher_registry_new() {
    let registry = FetcherRegistry::new();
    assert_eq!(registry.get_selected_fetchers().len(), 0);
}

#[test]
fn test_fetcher_registry_register() {
    let config = ScannerConfig::default();
    let mut registry = FetcherRegistry::new();

    registry.register(FetcherKind::Ping(PingFetcher::new(config.clone())));
    // the selection defaults to everything registered, in registration order
    assert_eq!(registry.get_selected_fetchers().len(), 1);

    registry.register_default_fetchers(config);
    assert!(registry.get_selected_fetchers().len() > 0);
}

#[test]
fn test_registry_selection_defaults_to_registration_order() {
    let config = ScannerConfig::default();
    let mut registry = FetcherRegistry::new();

    registry.register(FetcherKind::Mac(MacFetcher::new()));
    registry.register(FetcherKind::Ping(PingFetcher::new(config)));

    let selected = registry.get_selected_fetchers();
    assert_eq!(selected.len(), 2);
    assert_eq!(selected[0].id(), "mac");
    assert_eq!(selected[1].id(), "ping");
}

#[test]
fn test_hostname_fetcher() {
    let fetcher = HostnameFetcher::new();
    assert_eq!(fetcher.id(), "hostname");
    assert_eq!(fetcher.name(), "Hostname");

    assert_eq!(fetcher.evaluate(&Some("router.local".to_string())), "router.local");
    assert_eq!(fetcher.evaluate(&None), "[n/a]");
}

#[test]
fn test_mac_fetcher() {
    let fetcher = MacFetcher::new();
    assert_eq!(fetcher.id(), "mac");
    assert_eq!(fetcher.name(), "MAC Address");

    assert_eq!(fetcher.evaluate(&Some("AA:BB:CC:DD:EE:FF".to_string())), "AA:BB:CC:DD:EE:FF");
    assert_eq!(fetcher.evaluate(&None), "[n/a]");
}

#[test]
fn test_ports_fetcher() {
    let config = ScannerConfig {
        port_string: "65534-65535".to_string(),
        port_timeout_ms: 100,
        ..Default::default()
    };
    let fetcher = PortsFetcher::new(config.clone());

    assert_eq!(fetcher.id(), "ports");
    assert_eq!(fetcher.name(), "Ports");

    let mut requested = fetcher.requested_ports().unwrap();
    assert_eq!(requested.next(), Some(65534));
    assert_eq!(requested.next(), Some(65535));
    assert_eq!(requested.next(), None);

    let addr = IpAddress::v4(127, 0, 0, 1);
    let mut subject = ScanningSubject::new(addr, config);
    assert_eq!(fetcher.evaluate(&mut subject, &vec![]), "[n/a]");
    assert_eq!(subject.result_type(), ResultType::Unknown);
}

#[test]
fn test_ping_fetcher() {
    let config = ScannerConfig {
        ping_count: 1,
        ping_timeout_ms: 100,
        adapt_port_timeout: false,
        ..Default::default()
    };
    let fetcher = PingFetcher::new(config.clone());

    assert_eq!(fetcher.id(), "ping");
    assert_eq!(fetcher.name(), "Ping");

    let addr = IpAddress::v4(127, 0, 0, 1);
    let mut subject = ScanningSubject::new(addr, config);
    assert_eq!(fetcher.evaluate(&mut subject, &vec![None]), "[n/a]");
    assert_eq!(subject.result_type(), ResultType::Dead);
}

#[test]
fn test_ports_fetcher_blank_spec_not_requested() {
    let config = ScannerConfig { port_string: "   ".to_string(), ..Default::default() };
    let fetcher = PortsFetcher::new(config.clone());
    let requested = fetcher.requested_ports().unwrap();
    assert!(requested.is_empty());

    // no ports requested: the probe records the not-requested sentinel and
    // leaves the classification alone
    let addr = IpAddress::v4(10, 0, 0, 11);
    let mut subject = ScanningSubject::new(addr, config);
    assert_eq!(fetcher.evaluate(&mut subject, &vec![]), "[n/s]");
    assert_eq!(subject.result_type(), ResultType::Unknown);
}

#[test]
fn test_pipeline_blank_port_spec_records_not_requested() {
    let config = ScannerConfig {
        port_string: "".to_string(),
        ping_count: 1,
        scan_dead_hosts: true,
        ..Default::default()
    };
    let mut registry = FetcherRegistry::new();
    registry.register_default_fetchers(config.clone());
    let scanner = Scanner::new(&registry, config);
    let mut p = scanner.start_pipeline(IpAddress::v4(10, 0, 0, 12));

    p.step(Ok(ProbeObservation::Ping(vec![Some(5)])));
    p.step(Ok(ProbeObservation::Hostname(None)));
    let (ports, _timeout) = p.port_probe_plan().unwrap();
    assert_eq!(ports, Vec::<u16>::new());
    p.step(Ok(ProbeObservation::Ports(ports)));
    p.step(Ok(ProbeObservation::Mac(None)));

    let result = p.finish();
    assert_eq!(result.get_value("ports"), Some(&"[n/s]".to_string()));
    assert_eq!(result.result_type(), ResultType::Alive);
}

#[test]
fn test_ports_fetcher_invalid_spec_fails() {
    let config = ScannerConfig { port_string: "80-70".to_string(), ..Default::default() };
    let fetcher = PortsFetcher::new(config);
    match fetcher.requested_ports() {
        Err(ScanError::PortScanFailed(m)) => assert!(m.contains("80-70")),
        _ => panic!("an inverted range must fail the port probe"),
    }
}

#[test]
fn test_ports_fetcher_marks_open_ports() {
    let config = ScannerConfig::default();
    let fetcher = PortsFetcher::new(config.clone());
    let addr = IpAddress::v4(10, 0, 0, 9);
    let mut subject = ScanningSubject::new(addr, config);
    let out = fetcher.evaluate(&mut subject, &vec![22, 80, 81, 82, 443]);
    assert_eq!(out, "22,80-82,443");
    assert_eq!(subject.result_type(), ResultType::WithPorts);
}

#[test]
fn test_ping_fetcher_averages_and_classifies_alive() {
    let config = ScannerConfig {
        ping_count: 3,
        ping_timeout_ms: 2000,
        adapt_port_timeout: false,
        ..Default::default()
    };
    let fetcher = PingFetcher::new(config.clone());
    let addr = IpAddress::v4(10, 0, 0, 2);
    let mut subject = ScanningSubject::new(addr, config);
    // average over the successful probes only: (10 + 20) / 2
    let out = fetcher.evaluate(&mut subject, &vec![Some(10), None, Some(20)]);
    assert_eq!(out, "15 ms");
    assert_eq!(subject.result_type(), ResultType::Alive);
    assert!(!subject.is_aborted());
}

#[test]
fn test_adaptive_timeout_floors_at_minimum() {
    let config = ScannerConfig {
        ping_count: 2,
        ping_timeout_ms: 2000,
        adapt_port_timeout: true,
        min_port_timeout_ms: 100,
        ..Default::default()
    };
    let fetcher = PingFetcher::new(config.clone());
    let addr = IpAddress::v4(10, 0, 0, 3);
    let mut subject = ScanningSubject::new(addr, config);
    // average 15 ms; three times that is under the floor
    fetcher.evaluate(&mut subject, &vec![Some(10), Some(20)]);
    assert_eq!(subject.adapted_port_timeout(), 100);
}

#[test]
fn test_adaptive_timeout_tracks_latency() {
    let config = ScannerConfig {
        ping_count: 2,
        ping_timeout_ms: 2000,
        adapt_port_timeout: true,
        min_port_timeout_ms: 100,
        ..Default::default()
    };
    let fetcher = PingFetcher::new(config.clone());
    let addr = IpAddress::v4(10, 0, 0, 4);
    let mut subject = ScanningSubject::new(addr, config);
    // average 60 ms; the bound is three times the observed round trip
    fetcher.evaluate(&mut subject, &vec![Some(50), Some(70)]);
    assert_eq!(subject.adapted_port_timeout(), 180);
}

#[test]
fn test_dead_host_aborts_chain() {
    let config = ScannerConfig {
        ping_count: 2,
        scan_dead_hosts: false,
        port_string: "80".to_string(),
        ..Default::default()
    };
    let mut registry = FetcherRegistry::new();
    registry.register_default_fetchers(config.clone());
    let scanner = Scanner::new(&registry, config);
    let mut p = scanner.start_pipeline(IpAddress::v4(10, 0, 0, 7));

    assert!(p.should_continue());
    p.step(Ok(ProbeObservation::Ping(vec![None, None])));
    // every liveness probe failed: the host is Dead and the rest of its
    // chain never runs
    assert!(!p.should_continue());
    let result = p.finish();
    assert_eq!(result.result_type(), ResultType::Dead);
    assert_eq!(result.get_value("ping"), Some(&"[n/a]".to_string()));
    assert_eq!(result.get_value("hostname"), None);
}

#[test]
fn test_dead_host_still_scanned_when_requested() {
    let config = ScannerConfig {
        ping_count: 2,
        scan_dead_hosts: true,
        port_string: "80".to_string(),
        ..Default::default()
    };
    let mut registry = FetcherRegistry::new();
    registry.register_default_fetchers(config.clone());
    let scanner = Scanner::new(&registry, config);
    let mut p = scanner.start_pipeline(IpAddress::v4(10, 0, 0, 8));

    p.step(Ok(ProbeObservation::Ping(vec![None, None])));
    // the host is Dead, but its remaining probes still run
    assert!(p.should_continue());
    p.step(Ok(ProbeObservation::Hostname(None)));
    p.step(Ok(ProbeObservation::Ports(vec![80])));
    p.step(Ok(ProbeObservation::Mac(None)));
    assert!(!p.should_continue());
    let result = p.finish();
    // ports answered even though liveness failed: no enforced ordering
    assert_eq!(result.result_type(), ResultType::WithPorts);
}

#[test]
fn test_pipeline_full_chain() {
    let config = ScannerConfig {
        port_string: "80,443".to_string(),
        ping_count: 2,
        scan_dead_hosts: false,
        adapt_port_timeout: true,
        min_port_timeout_ms: 100,
        ..Default::default()
    };
    let mut registry = FetcherRegistry::new();
    registry.register_default_fetchers(config.clone());
    let scanner = Scanner::new(&registry, config);
    let mut p = scanner.start_pipeline(IpAddress::v4(10, 0, 0, 5));

    assert!(p.should_continue());
    assert!(matches!(p.current_fetcher(), FetcherKind::Ping(_)));
    p.step(Ok(ProbeObservation::Ping(vec![Some(10), Some(20)])));

    assert!(matches!(p.current_fetcher(), FetcherKind::Hostname(_)));
    p.step(Ok(ProbeObservation::Hostname(Some("printer.local".to_string()))));

    assert!(matches!(p.current_fetcher(), FetcherKind::Ports(_)));
    let (ports, timeout) = p.port_probe_plan().unwrap();
    assert_eq!(ports, vec![80, 443]);
    assert_eq!(timeout, 100);
    p.step(Ok(ProbeObservation::Ports(ports)));

    assert!(matches!(p.current_fetcher(), FetcherKind::Mac(_)));
    p.step(Ok(ProbeObservation::Mac(None)));

    assert!(!p.should_continue());
    let result = p.finish();
    assert_eq!(result.result_type(), ResultType::WithPorts);
    assert_eq!(result.get_value("ping"), Some(&"15 ms".to_string()));
    assert_eq!(result.get_value("hostname"), Some(&"printer.local".to_string()));
    assert_eq!(result.get_value("ports"), Some(&"80,443".to_string()));
    assert_eq!(result.get_value("mac"), Some(&"[n/a]".to_string()));
}

#[test]
fn test_pipeline_probe_failure_is_absorbed() {
    let config = ScannerConfig { ping_count: 1, ..Default::default() };
    let mut registry = FetcherRegistry::new();
    registry.register_default_fetchers(config.clone());
    let scanner = Scanner::new(&registry, config);
    let mut p = scanner.start_pipeline(IpAddress::v4(10, 0, 0, 6));

    p.step(Err(ScanError::PingFailed("socket refused".to_string())));
    // the failure is logged outside and absorbed; the chain continues
    assert!(p.should_continue());
    let result = p.finish();
    assert_eq!(result.get_value("ping"), None);
    assert_eq!(result.result_type(), ResultType::Unknown);
}

#[test]
fn test_dispatch_never_exceeds_limit() {
    let mut d = DispatchState::new(2);
    assert!(d.can_dispatch());
    d.dispatch();
    assert!(d.can_dispatch());
    d.dispatch();
    // both permits are taken: the dispatch loop must suspend here
    assert!(!d.can_dispatch());
    assert_eq!(d.active_count(), 2);

    d.complete(ScanningResult::new(IpAddress::v4(10, 0, 0, 1)));
    assert!(d.can_dispatch());
    assert_eq!(d.active_count(), 1);
}

#[test]
fn test_dispatch_accounts_for_every_host() {
    let mut d = DispatchState::new(3);
    d.dispatch();
    d.dispatch();
    d.dispatch();
    d.complete(ScanningResult::new(IpAddress::v4(10, 0, 0, 1)));
    d.complete(ScanningResult::new(IpAddress::v4(10, 0, 0, 2)));
    d.complete(ScanningResult::new(IpAddress::v4(10, 0, 0, 3)));
    assert_eq!(d.active_count(), 0);
    // no fault: one record per address fed
    let results = d.into_results();
    assert_eq!(results.len(), 3);
}

#[test]
fn test_dispatch_faulted_host_left_out() {
    let mut d = DispatchState::new(2);
    d.dispatch();
    d.dispatch();
    d.complete(ScanningResult::new(IpAddress::v4(10, 0, 0, 1)));
    d.fault();
    assert_eq!(d.active_count(), 0);
    let results = d.into_results();
    assert_eq!(results.len(), 1);
}
