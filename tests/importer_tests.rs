use plc_recovery::importer::{import, is_ethernet_label, system_name_of};

#[test]
fn import_round_trip_three_hosts() {
    let systems = import("PLC1_eth0,10.0.0.1\nPLC1_eth1,10.0.0.2\nPLC1_node1,10.0.0.3\n");
    assert_eq!(systems.len(), 1);
    let s = &systems[0];
    assert_eq!(s.name, "PLC1");
    assert_eq!(s.plc_eths.len(), 2);
    assert_eq!(s.plc_nodes.len(), 1);
    assert_eq!(s.plc_eths[0].hostname, "PLC1_eth0");
    assert_eq!(s.plc_eths[0].ip_address, "10.0.0.1");
    assert_eq!(s.plc_eths[1].ip_address, "10.0.0.2");
    assert_eq!(s.plc_nodes[0].hostname, "PLC1_node1");
    assert_eq!(s.plc_nodes[0].ip_address, "10.0.0.3");
    assert!(!s.plc_eths[0].responding);
    assert_eq!(s.active_alarms(), None);
}

#[test]
fn import_skips_malformed_lines_and_trims() {
    let text = "  PLC2_ETH0 , 192.168.1.10 \r\nbad line\na,b,c\n\nPLC3_node,10.1.1.1";
    let systems = import(text);
    assert_eq!(systems.len(), 2);
    assert_eq!(systems[0].name, "PLC2");
    assert_eq!(systems[0].plc_eths.len(), 1);
    assert_eq!(systems[0].plc_eths[0].hostname, "PLC2_ETH0");
    assert_eq!(systems[0].plc_eths[0].ip_address, "192.168.1.10");
    assert_eq!(systems[1].name, "PLC3");
    assert_eq!(systems[1].plc_nodes.len(), 1);
    assert_eq!(systems[1].plc_eths.len(), 0);
}

#[test]
fn import_groups_systems_in_order_of_first_mention() {
    let text = "B_eth,1\nA_node,2\nB_node,3\nA_Eth1,4\n";
    let systems = import(text);
    assert_eq!(systems.len(), 2);
    assert_eq!(systems[0].name, "B");
    assert_eq!(systems[1].name, "A");
    assert_eq!(systems[0].plc_eths.len(), 1);
    assert_eq!(systems[0].plc_nodes.len(), 1);
    assert_eq!(systems[1].plc_eths.len(), 1);
    assert_eq!(systems[1].plc_eths[0].ip_address, "4");
}

#[test]
fn import_of_empty_text_is_empty() {
    assert!(import("").is_empty());
    assert!(import("\n\n").is_empty());
}

#[test]
fn ethernet_classification_ignores_case() {
    assert!(is_ethernet_label("PLC1_eth0"));
    assert!(is_ethernet_label("PLC1_ETH0"));
    assert!(is_ethernet_label("x_EtH"));
    assert!(is_ethernet_label("ethernet"));
    assert!(!is_ethernet_label("PLC1_node1"));
    assert!(!is_ethernet_label("PLC1_et_h"));
    assert!(!is_ethernet_label(""));
}

#[test]
fn system_name_is_prefix_before_first_underscore() {
    assert_eq!(system_name_of("PLC1_eth0"), "PLC1");
    assert_eq!(system_name_of("PLC1_a_b"), "PLC1");
    assert_eq!(system_name_of("NOUNDERSCORE"), "NOUNDERSCORE");
    assert_eq!(system_name_of("_lead"), "");
}
