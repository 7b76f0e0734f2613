use ipscan_rs::ports::{format_ports, PortIterator};

fn collect_ports(mut iter: PortIterator) -> Vec<u16> {
    let mut ports: Vec<u16> = Vec::new();
    while let Some(p) = iter.next() {
        ports.push(p);
    }
    ports
}

#[test]
fn test_port_iterator_single_port() {
    let mut iter = PortIterator::new("80").unwrap();
    assert_eq!(iter.next(), Some(80));
    assert_eq!(iter.next(), None);
}

#[test]
fn test_port_iterator_range() {
    let mut iter = PortIterator::new("80-82").unwrap();
    assert_eq!(iter.next(), Some(80));
    assert_eq!(iter.next(), Some(81));
    assert_eq!(iter.next(), Some(82));
    assert_eq!(iter.next(), None);
}

#[test]
fn test_port_iterator_mixed() {
    let iter = PortIterator::new("22,80-82,443").unwrap();
    let ports: Vec<u16> = collect_ports(iter);
    assert_eq!(ports, vec![22, 80, 81, 82, 443]);
}

#[test]
fn test_port_iterator_invalid() {
    assert!(PortIterator::new("invalid").is_err());
    assert!(PortIterator::new("80-70").is_err()); // Invalid range
    assert!(PortIterator::new("99999").is_err()); // Port too high
}

#[test]
fn test_port_iterator_duplicates() {
    let iter = PortIterator::new("80,80,81,80-82").unwrap();
    let ports: Vec<u16> = collect_ports(iter);
    assert_eq!(ports, vec![80, 81, 82]);
}

#[test]
fn test_port_iterator_empty_check() {
    let iter = PortIterator::new("80").unwrap();
    assert!(!iter.is_empty());

    match PortIterator::new("") {
        Ok(iter) => assert!(iter.is_empty()),
        Err(_) => {
            // OK - empty string might be rejected
        }
    }
}

#[test]
fn test_port_iterator_complex_ranges() {
    let iter = PortIterator::new("1-3,10-12,20").unwrap();
    let ports: Vec<u16> = collect_ports(iter);
    assert_eq!(ports, vec![1, 2, 3, 10, 11, 12, 20]);
}

#[test]
fn test_port_iterator_max_port() {
    assert!(PortIterator::new("65535").is_ok());
    assert!(PortIterator::new("65536").is_err());
}

#[test]
fn test_format_ports_function() {
    assert_eq!(format_ports(&[80]), "80");
    assert_eq!(format_ports(&[80, 81, 82]), "80-82");
    assert_eq!(format_ports(&[22, 80, 81, 82, 443]), "22,80-82,443");
    assert_eq!(format_ports(&[]), "");
}

#[test]
fn test_port_iterator_whitespace_tokens() {
    let iter = PortIterator::new(" 22 , 80 - 82 ,443 ").unwrap();
    let ports: Vec<u16> = collect_ports(iter);
    assert_eq!(ports, vec![22, 80, 81, 82, 443]);
}

#[test]
fn test_port_iterator_expansion_cap() {
    // the full port space expands to one entry past the cap
    assert!(PortIterator::new("0-65535").is_err());
    // one entry under the cap is fine
    let iter = PortIterator::new("1-65535").unwrap();
    assert_eq!(iter.len(), 65535);
}

#[test]
fn test_port_iterator_overlapping_ranges_dedup() {
    let iter = PortIterator::new("10-20,15-25").unwrap();
    let ports: Vec<u16> = collect_ports(iter);
    let expected: Vec<u16> = (10..=25).collect();
    assert_eq!(ports, expected);
}

#[test]
fn test_parse_compress_round_trip() {
    let iter = PortIterator::new("443,22,80-82,8080").unwrap();
    let ports: Vec<u16> = collect_ports(iter);
    assert_eq!(ports, vec![22, 80, 81, 82, 443, 8080]);
    let compressed = format_ports(&ports);
    assert_eq!(compressed, "22,80-82,443,8080");
    let again = PortIterator::new(&compressed).unwrap();
    let ports_again: Vec<u16> = collect_ports(again);
    assert_eq!(ports_again, ports);
}

fn parse_error(spec: &str) -> String {
    match PortIterator::new(spec) {
        Ok(_) => panic!("the specification was expected to fail"),
        Err(m) => m,
    }
}

#[test]
fn test_parse_error_names_offending_token() {
    assert_eq!(parse_error("80,bogus,443"), "invalid port token: bogus");
    assert_eq!(parse_error("99999"), "invalid port token: 99999");
    assert_eq!(parse_error("0-65535"), "too many ports in specification");
}

#[test]
fn test_parse_rejects_malformed_tokens() {
    assert!(PortIterator::new("80,").is_err());
    assert!(PortIterator::new(",80").is_err());
    assert!(PortIterator::new("1-2-3").is_err());
    assert!(PortIterator::new("-80").is_err());
    assert!(PortIterator::new("80-").is_err());
    assert!(PortIterator::new("+80").is_err());
    assert!(PortIterator::new("8 0").is_err());
}
