use std::io;

use ipscan_rs::{IpAddress, ResultType, ScanError, ScannerConfig, ScanningResult, ScanningSubject};

#[test]
fn test_scanning_result() {
    let addr = IpAddress::v4(192, 168, 0, 1);
    let mut result = ScanningResult::new(addr);

    assert_eq!(result.address(), addr);
    assert_eq!(result.result_type(), ResultType::Unknown);

    result.add_value("ping".to_string(), "5 ms".to_string());
    result.set_type(ResultType::Alive);

    assert_eq!(result.get_value("ping"), Some(&"5 ms".to_string()));
    assert_eq!(result.result_type(), ResultType::Alive);
}

#[test]
fn test_scanning_result_mac() {
    let addr = IpAddress::v4(192, 168, 0, 1);
    let mut result = ScanningResult::new(addr);

    assert_eq!(result.mac(), None);

    result.set_mac("AA:BB:CC:DD:EE:FF".to_string());
    assert_eq!(result.mac(), Some(&"AA:BB:CC:DD:EE:FF".to_string()));
}

#[test]
fn test_scanning_result_multiple_values() {
    let addr = IpAddress::v4(10, 0, 0, 1);
    let mut result = ScanningResult::new(addr);

    result.add_value("hostname".to_string(), "test.local".to_string());
    result.add_value("ports".to_string(), "80,443".to_string());
    result.add_value("ping".to_string(), "10 ms".to_string());

    assert_eq!(result.get_value("hostname"), Some(&"test.local".to_string()));
    assert_eq!(result.get_value("ports"), Some(&"80,443".to_string()));
    assert_eq!(result.get_value("ping"), Some(&"10 ms".to_string()));
    assert_eq!(result.get_value("nonexistent"), None);
}

#[test]
fn test_scanning_result_replaces_value_under_same_key() {
    let addr = IpAddress::v4(10, 0, 0, 1);
    let mut result = ScanningResult::new(addr);

    result.add_value("ping".to_string(), "5 ms".to_string());
    result.add_value("ping".to_string(), "7 ms".to_string());

    assert_eq!(result.get_value("ping"), Some(&"7 ms".to_string()));
}

#[test]
fn test_scanning_subject() {
    let config = ScannerConfig::default();
    let addr = IpAddress::v4(192, 168, 0, 1);
    let mut subject = ScanningSubject::new(addr, config);

    assert_eq!(subject.address(), addr);
    assert!(!subject.is_aborted());
    assert_eq!(subject.result_type(), ResultType::Unknown);

    subject.set_result_type(ResultType::Alive);
    assert_eq!(subject.result_type(), ResultType::Alive);

    subject.abort();
    assert!(subject.is_aborted());
}

#[test]
fn test_scanning_subject_parameters() {
    let config = ScannerConfig::default();
    let addr = IpAddress::v4(10, 0, 0, 1);
    let mut subject = ScanningSubject::new(addr, config);

    subject.set_parameter("test_key".to_string(), 42);

    assert_eq!(subject.get_parameter("test_key"), Some(42));
    assert_eq!(subject.get_parameter("nonexistent"), None);
}

#[test]
fn test_scanning_subject_port_timeout() {
    let config = ScannerConfig { port_timeout_ms: 500, ..Default::default() };
    let addr = IpAddress::v4(192, 168, 0, 1);
    let mut subject = ScanningSubject::new(addr, config);

    assert_eq!(subject.adapted_port_timeout(), 500);

    subject.set_adapted_port_timeout(200);
    assert_eq!(subject.adapted_port_timeout(), 200);
}

#[test]
fn test_scanner_config_default() {
    let config = ScannerConfig::default();

    assert_eq!(config.max_threads, 100);
    assert_eq!(config.ping_timeout_ms, 2000);
    assert!(!config.scan_dead_hosts);
    assert_eq!(config.ping_count, 3);
    assert_eq!(config.port_timeout_ms, 500);
    assert_eq!(config.min_port_timeout_ms, 100);
    assert!(config.adapt_port_timeout);
}

#[test]
fn test_scanner_config_custom() {
    let config = ScannerConfig {
        max_threads: 50,
        ping_timeout_ms: 1000,
        scan_dead_hosts: true,
        port_string: "22,80,443".to_string(),
        use_requested_ports: true,
        ping_count: 5,
        port_timeout_ms: 1000,
        min_port_timeout_ms: 50,
        adapt_port_timeout: false,
    };

    assert_eq!(config.max_threads, 50);
    assert_eq!(config.ping_timeout_ms, 1000);
    assert!(config.scan_dead_hosts);
    assert_eq!(config.port_string, "22,80,443");
    assert!(config.use_requested_ports);
    assert_eq!(config.ping_count, 5);
    assert_eq!(config.port_timeout_ms, 1000);
    assert_eq!(config.min_port_timeout_ms, 50);
    assert!(!config.adapt_port_timeout);
}

#[test]
fn test_result_type() {
    let unknown = ResultType::Unknown;
    let dead = ResultType::Dead;
    let alive = ResultType::Alive;
    let with_ports = ResultType::WithPorts;

    assert_ne!(unknown, dead);
    assert_ne!(alive, dead);
    assert_ne!(alive, with_ports);
    assert_eq!(unknown, unknown.clone());
}

#[test]
fn test_scan_error_display() {
    let err = ScanError::InvalidRange;
    assert_eq!(err.message(), "Invalid IP range");

    let err = ScanError::PingFailed("timeout".to_string());
    assert_eq!(err.message(), "Ping failed: timeout");

    let err = ScanError::PortScanFailed("connection refused".to_string());
    assert_eq!(err.message(), "Port scan failed: connection refused");

    let err = ScanError::DnsResolutionFailed("host not found".to_string());
    assert_eq!(err.message(), "DNS resolution failed: host not found");

    let err = ScanError::Network("connection lost".to_string());
    assert_eq!(err.message(), "Network error: connection lost");
}

#[test]
fn test_scan_error_from_io_error() {
    let io_error = io::Error::new(io::ErrorKind::NotFound, "file not found");
    let scan_error = ScanError::from(io_error);
    assert!(scan_error.message().contains("file not found"));
}

#[test]
fn test_scanning_workflow() {
    let config = ScannerConfig {
        port_string: "".to_string(),
        ping_count: 1,
        ping_timeout_ms: 100,
        ..Default::default()
    };

    let addr = IpAddress::v4(127, 0, 0, 1);
    let mut subject = ScanningSubject::new(addr, config);
    let mut result = ScanningResult::new(addr);

    subject.set_result_type(ResultType::Alive);
    result.add_value("ping".to_string(), "1 ms".to_string());
    result.add_value("hostname".to_string(), "localhost".to_string());
    result.set_type(subject.result_type());

    assert_eq!(result.result_type(), ResultType::Alive);
    assert_eq!(result.get_value("ping"), Some(&"1 ms".to_string()));
    assert_eq!(result.get_value("hostname"), Some(&"localhost".to_string()));
}

#[test]
fn test_cidr_calculation() {
    let cidr = "192.168.0.0/24";
    let parts: Vec<&str> = cidr.split('/').collect();
    assert_eq!(parts.len(), 2);
    assert_eq!(parts[0], "192.168.0.0");
    assert_eq!(parts[1], "24");

    let mask_bits: u32 = parts[1].parse().unwrap();
    assert_eq!(mask_bits, 24);

    let cidr = "192.168.0.1/32";
    let parts: Vec<&str> = cidr.split('/').collect();
    let mask_bits: u32 = parts[1].parse().unwrap();
    assert_eq!(mask_bits, 32);
}

#[test]
fn test_cidr_range_calculation() {
    let base_ip = "192.168.1.0";
    let mask_bits = 24u32;

    let octets: Vec<u8> = base_ip.split('.').filter_map(|s| s.parse().ok()).collect();
    let ip_num = u32::from_be_bytes([octets[0], octets[1], octets[2], octets[3]]);

    let network_mask = !0u32 << (32 - mask_bits);
    let network_addr = ip_num & network_mask;
    let broadcast_addr = network_addr | !network_mask;

    let first_addr = network_addr + 1;
    let last_addr = broadcast_addr - 1;

    assert_eq!(last_addr - first_addr + 1, 254); // /24 has 254 usable hosts
}
