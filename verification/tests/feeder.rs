use ipscan_rs::{Feeder, IpAddress, RangeFeeder};

#[test]
fn test_range_feeder_ipv4() {
    let start = IpAddress::v4(192, 168, 0, 1);
    let end = IpAddress::v4(192, 168, 0, 3);

    let mut feeder = RangeFeeder::new(start, end).unwrap();

    assert_eq!(feeder.next_address(), Some(IpAddress::v4(192, 168, 0, 1)));
    assert_eq!(feeder.next_address(), Some(IpAddress::v4(192, 168, 0, 2)));
    assert_eq!(feeder.next_address(), Some(IpAddress::v4(192, 168, 0, 3)));
    assert_eq!(feeder.next_address(), None);
}

#[test]
fn test_range_feeder_ipv6() {
    let start = IpAddress::v6(0, 0, 0, 0, 0, 0, 0, 1);
    let end = IpAddress::v6(0, 0, 0, 0, 0, 0, 0, 3);

    let mut feeder = RangeFeeder::new(start, end).unwrap();

    assert_eq!(feeder.next_address(), Some(IpAddress::v6(0, 0, 0, 0, 0, 0, 0, 1)));
    assert_eq!(feeder.next_address(), Some(IpAddress::v6(0, 0, 0, 0, 0, 0, 0, 2)));
    assert_eq!(feeder.next_address(), Some(IpAddress::v6(0, 0, 0, 0, 0, 0, 0, 3)));
    assert_eq!(feeder.next_address(), None);
}

#[test]
fn test_range_feeder_invalid() {
    let start = IpAddress::v4(192, 168, 0, 10);
    let end = IpAddress::v4(192, 168, 0, 1);

    assert!(RangeFeeder::new(start, end).is_err());
}

#[test]
fn test_range_feeder_mixed_types() {
    let start = IpAddress::v4(192, 168, 0, 1);
    let end = IpAddress::v6(0, 0, 0, 0, 0, 0, 0, 1);

    assert!(RangeFeeder::new(start, end).is_err());
}

#[test]
fn test_range_feeder_single_ip() {
    let ip = IpAddress::v4(192, 168, 0, 1);

    let mut feeder = RangeFeeder::new(ip, ip).unwrap();

    assert_eq!(feeder.next_address(), Some(ip));
    assert_eq!(feeder.next_address(), None);
}

#[test]
fn test_range_feeder_total_addresses() {
    let start = IpAddress::v4(192, 168, 0, 1);
    let end = IpAddress::v4(192, 168, 0, 254);

    let feeder = RangeFeeder::new(start, end).unwrap();
    assert_eq!(feeder.total_addresses(), 254);
}

#[test]
fn test_range_feeder_crosses_octet_boundary() {
    let start = IpAddress::v4(10, 0, 0, 255);
    let end = IpAddress::v4(10, 0, 1, 1);

    let mut feeder = RangeFeeder::new(start, end).unwrap();
    assert_eq!(feeder.total_addresses(), 3);
    assert_eq!(feeder.next_address(), Some(IpAddress::v4(10, 0, 0, 255)));
    assert_eq!(feeder.next_address(), Some(IpAddress::v4(10, 0, 1, 0)));
    assert_eq!(feeder.next_address(), Some(IpAddress::v4(10, 0, 1, 1)));
    assert_eq!(feeder.next_address(), None);
}

#[test]
fn test_range_feeder_total_shrinks_as_fed() {
    let start = IpAddress::v4(10, 0, 0, 1);
    let end = IpAddress::v4(10, 0, 0, 4);

    let mut feeder = RangeFeeder::new(start, end).unwrap();
    assert_eq!(feeder.total_addresses(), 4);
    let first = feeder.next_address();
    assert_eq!(first, Some(IpAddress::v4(10, 0, 0, 1)));
    assert_eq!(feeder.total_addresses(), 3);
}
