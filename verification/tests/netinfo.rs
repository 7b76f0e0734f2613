use ipscan_rs::fetchers::mac::MacFetcher;
use ipscan_rs::network_utils::candidate_network;

#[test]
fn test_mac_from_arp_table() {
    let content = "IP address       HW type     Flags       HW address            Mask     Device\n\
                   192.168.0.7      0x1         0x2         aa:bb:cc:dd:ee:ff     *        eth0\n\
                   192.168.0.9      0x1         0x2         11:22:33:44:55:66     *        eth0\n";
    assert_eq!(
        MacFetcher::mac_from_arp_table(content, "192.168.0.7"),
        Some("AA:BB:CC:DD:EE:FF".to_string())
    );
    assert_eq!(
        MacFetcher::mac_from_arp_table(content, "192.168.0.9"),
        Some("11:22:33:44:55:66".to_string())
    );
    assert_eq!(MacFetcher::mac_from_arp_table(content, "192.168.0.8"), None);
}

#[test]
fn test_mac_from_arp_table_skips_placeholders() {
    let content = "IP address HW type Flags HW address Mask Device\n\
                   10.0.0.1 0x1 0x0 00:00:00:00:00:00 * eth0\n\
                   10.0.0.2 0x1 0x0 * * eth0\n";
    assert_eq!(MacFetcher::mac_from_arp_table(content, "10.0.0.1"), None);
    assert_eq!(MacFetcher::mac_from_arp_table(content, "10.0.0.2"), None);
}

#[test]
fn test_mac_from_neigh_output() {
    let output = "192.168.0.7 dev eth0 lladdr aa:bb:cc:dd:ee:ff REACHABLE";
    assert_eq!(
        MacFetcher::mac_from_neigh_output(output),
        Some("AA:BB:CC:DD:EE:FF".to_string())
    );
    assert_eq!(MacFetcher::mac_from_neigh_output("192.168.0.7 dev eth0 FAILED"), None);
    assert_eq!(MacFetcher::mac_from_neigh_output("192.168.0.7 dev eth0 lladdr"), None);
}

#[test]
fn test_mac_from_arp_output() {
    let output = "Address                  HWtype  HWaddress           Flags Mask            Iface\n\
                  192.168.0.7              ether   aa:bb:cc:dd:ee:ff   C                     eth0\n";
    assert_eq!(
        MacFetcher::mac_from_arp_output(output, "192.168.0.7"),
        Some("AA:BB:CC:DD:EE:FF".to_string())
    );
    assert_eq!(MacFetcher::mac_from_arp_output(output, "192.168.0.8"), None);
}

#[test]
fn test_mac_from_arp_table_dashed() {
    let output = "Interface: 192.168.0.10 --- 0x4\n\
                  \x20 Internet Address      Physical Address      Type\n\
                  \x20 192.168.0.7           aa-bb-cc-dd-ee-ff     dynamic\n";
    assert_eq!(
        MacFetcher::mac_from_arp_table_dashed(output, "192.168.0.7"),
        Some("AA:BB:CC:DD:EE:FF".to_string())
    );
    assert_eq!(MacFetcher::mac_from_arp_table_dashed(output, "192.168.0.9"), None);
}

#[test]
fn test_mac_from_arp_output_colon() {
    let output = "? (192.168.0.7) at aa:bb:cc:dd:ee:ff on en0 ifscope [ethernet]";
    assert_eq!(
        MacFetcher::mac_from_arp_output_colon(output, "192.168.0.7"),
        Some("AA:BB:CC:DD:EE:FF".to_string())
    );
    // an incomplete entry has no usable address column
    let incomplete = "? (192.168.0.7) at (incomplete) on en0 ifscope [ethernet]";
    assert_eq!(MacFetcher::mac_from_arp_output_colon(incomplete, "192.168.0.7"), None);
}

#[test]
fn test_candidate_network() {
    assert_eq!(
        candidate_network(192, 168, 1),
        Some((
            "192.168.1.1".to_string(),
            "192.168.1.254".to_string(),
            "192.168.1.0/24".to_string()
        ))
    );
    assert_eq!(candidate_network(127, 0, 0), None);
    assert_eq!(candidate_network(169, 254, 3), None);
}
