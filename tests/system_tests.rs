use plc_recovery::system::{Host, SystemInfo};

fn sample() -> SystemInfo {
    let mut s = SystemInfo::new("PLC1".to_string());
    s.add_eth(Host::new("PLC1_eth0".to_string(), "10.0.0.1".to_string()));
    s.add_eth(Host::new("PLC1_eth1".to_string(), "10.0.0.2".to_string()));
    s.add_node(Host::new("PLC1_node1".to_string(), "10.0.0.3".to_string()));
    s
}

fn responses(items: &[(&str, bool)]) -> Vec<(String, bool)> {
    items.iter().map(|(a, b)| (a.to_string(), *b)).collect()
}

#[test]
fn new_system_is_empty_and_unknown() {
    let s = SystemInfo::new("X".to_string());
    assert_eq!(s.name, "X");
    assert!(s.plc_eths.is_empty());
    assert!(s.plc_nodes.is_empty());
    assert_eq!(s.active_alarms(), None);
    assert_eq!(s.eth_status(), "0/0");
    assert_eq!(s.failed_hosts(), "");
}

#[test]
fn eths_ok_is_vacuously_true_without_ethernet_hosts() {
    let mut s = SystemInfo::new("X".to_string());
    assert!(s.eths_ok());
    assert!(s.nodes_ok());
    s.add_node(Host::new("X_node".to_string(), "1.1.1.1".to_string()));
    assert!(s.eths_ok());
    assert!(!s.nodes_ok());
}

#[test]
fn updates_apply_probe_answers() {
    let mut s = sample();
    let r = responses(&[("10.0.0.3", true), ("10.0.0.1", false), ("10.0.0.2", true)]);
    s.update_eth(&r);
    s.update_nodes(&r);
    assert!(!s.plc_eths[0].responding);
    assert!(s.plc_eths[1].responding);
    assert!(s.plc_nodes[0].responding);
    assert!(!s.eths_ok());
    assert!(s.nodes_ok());
    assert_eq!(s.eth_status(), "1/2");
    assert_eq!(s.nodes_status(), "1/1");
    assert_eq!(s.failed_hosts(), "PLC1_eth0");
}

#[test]
fn eth_address_prefers_first_responding() {
    let mut s = sample();
    assert_eq!(s.get_eth_address(), "10.0.0.1");
    s.update_eth(&responses(&[("10.0.0.1", false), ("10.0.0.2", true)]));
    assert_eq!(s.get_eth_address(), "10.0.0.2");
    s.update_eth(&responses(&[("10.0.0.1", true), ("10.0.0.2", true)]));
    assert_eq!(s.get_eth_address(), "10.0.0.1");
}

#[test]
fn addresses_list_ethernet_then_nodes() {
    let s = sample();
    assert_eq!(s.get_addresses(), vec!["10.0.0.1", "10.0.0.2", "10.0.0.3"]);
}

#[test]
fn failed_hosts_joins_with_line_breaks() {
    let s = sample();
    assert_eq!(s.failed_hosts(), "PLC1_eth0\nPLC1_eth1\nPLC1_node1");
    assert_eq!(s.eth_status(), "0/2");
    assert_eq!(s.nodes_status(), "0/1");
}

#[test]
fn status_counts_use_decimal_digits() {
    let mut s = SystemInfo::new("BIG".to_string());
    let mut r = Vec::new();
    for i in 0..12 {
        let a = format!("10.0.0.{}", i);
        s.add_eth(Host::new(format!("BIG_eth{}", i), a.clone()));
        r.push((a, i % 2 == 0));
    }
    s.update_eth(&r);
    assert_eq!(s.eth_status(), "6/12");
}
