use plc_recovery::status::{alarm_status, alarm_text, failed_hosts_report, hosts_status, Status};
use plc_recovery::system::{Host, SystemInfo};

#[test]
fn indicator_levels() {
    assert_eq!(hosts_status(true), Status::Normal);
    assert_eq!(hosts_status(false), Status::Fault);
    assert_eq!(alarm_status(None), Status::Fault);
    assert_eq!(alarm_status(Some(true)), Status::Warning);
    assert_eq!(alarm_status(Some(false)), Status::Normal);
}

#[test]
fn alarm_texts() {
    assert_eq!(alarm_text(None), "Unknown");
    assert_eq!(alarm_text(Some(true)), "true");
    assert_eq!(alarm_text(Some(false)), "false");
}

#[test]
fn report_lists_failed_hosts_of_failing_systems() {
    let mut a = SystemInfo::new("A".to_string());
    a.add_eth(Host::new("A_eth".to_string(), "1".to_string()));
    a.update_eth(&vec![("1".to_string(), true)]);
    let mut b = SystemInfo::new("B".to_string());
    b.add_eth(Host::new("B_eth".to_string(), "2".to_string()));
    b.add_node(Host::new("B_node".to_string(), "3".to_string()));
    let mut c = SystemInfo::new("C".to_string());
    c.add_node(Host::new("C_node".to_string(), "4".to_string()));
    let report = failed_hosts_report(&vec![a.clone(), b, c]);
    assert_eq!(report, "B_eth\nB_node\nC_node");
    assert_eq!(failed_hosts_report(&vec![a]), "");
}
