use plc_recovery::plc_comms::merge_alarm_results;
use plc_recovery::poller::{pause_millis, BackgroundMessage, SystemPoller};

const TOPOLOGY: &str = "PLC1_eth0,10.0.0.1\nPLC1_eth1,10.0.0.2\nPLC1_node1,10.0.0.3\nPLC2_eth0,10.0.1.1\nPLC2_node1,10.0.0.3\n";

fn loaded() -> SystemPoller {
    let mut p = SystemPoller::new("linux");
    assert_eq!(p.load(Ok(TOPOLOGY.to_string())), None);
    p
}

fn index_of(p: &SystemPoller, address: &str) -> usize {
    p.pinger.addresses.iter().position(|a| a == address).unwrap()
}

fn all_up(p: &SystemPoller) -> Vec<(usize, bool)> {
    (0..p.pinger.addresses.len()).map(|i| (i, true)).collect()
}

#[test]
fn load_builds_union_of_addresses() {
    let p = loaded();
    assert!(p.has_systems());
    assert_eq!(p.systems.len(), 2);
    assert_eq!(p.pinger.addresses, vec!["10.0.0.1", "10.0.0.2", "10.0.0.3", "10.0.1.1"]);
}

#[test]
fn failed_load_keeps_topology() {
    let mut p = loaded();
    p.handle_message(BackgroundMessage::Reset("PLC1".to_string()));
    let r = p.load(Err("no such file".to_string()));
    assert_eq!(r, Some("no such file".to_string()));
    assert_eq!(p.systems.len(), 2);
    assert_eq!(p.to_reset, vec!["PLC1"]);
}

#[test]
fn reload_drops_pending_resets() {
    let mut p = loaded();
    p.handle_message(BackgroundMessage::ResetAll);
    assert_eq!(p.to_reset, vec!["PLC1", "PLC2"]);
    p.load(Ok("PLC9_eth,1.2.3.4\n".to_string()));
    assert!(p.to_reset.is_empty());
    assert_eq!(p.systems.len(), 1);
}

#[test]
fn reset_all_takes_systems_known_now() {
    let mut p = SystemPoller::new("linux");
    assert_eq!(p.handle_message(BackgroundMessage::ResetAll), None);
    assert!(p.to_reset.is_empty());
    p.load(Ok(TOPOLOGY.to_string()));
    assert!(p.to_reset.is_empty());
    p.handle_message(BackgroundMessage::ResetAll);
    assert_eq!(p.to_reset, vec!["PLC1", "PLC2"]);
}

#[test]
fn load_file_message_asks_for_the_file() {
    let mut p = SystemPoller::new("linux");
    let r = p.handle_message(BackgroundMessage::LoadFile("hosts.txt".to_string()));
    assert_eq!(r, Some("hosts.txt".to_string()));
    assert!(!p.has_systems());
}

#[test]
fn down_ethernet_overrides_previous_alarm() {
    let mut p = loaded();
    // previous cycle: everything up, PLC1 reported no alarm
    let up = all_up(&p);
    p.record_probes(&up);
    let requests = p.plan_transactions();
    assert_eq!(requests.len(), 2);
    let results = merge_alarm_results(&requests, &vec![(0, Some(false)), (1, Some(true))]);
    p.record_alarms(&results);
    p.finish_cycle();
    assert_eq!(p.systems[0].active_alarms(), Some(false));
    assert_eq!(p.systems[1].active_alarms(), Some(true));
    // this cycle: PLC1_eth0 down, PLC1_eth1 up
    let down = index_of(&p, "10.0.0.1");
    let probes: Vec<(usize, bool)> = up.iter().map(|&(i, _)| (i, i != down)).collect();
    p.record_probes(&probes);
    assert!(!p.systems[0].eths_ok());
    let requests = p.plan_transactions();
    assert_eq!(p.systems[0].active_alarms(), None);
    assert_eq!(requests.len(), 1);
    assert_eq!(requests[0].0, "PLC2");
    let results = merge_alarm_results(&requests, &vec![(0, Some(true))]);
    p.record_alarms(&results);
    assert_eq!(p.systems[0].active_alarms(), None);
    assert_eq!(p.systems[1].active_alarms(), Some(true));
}

#[test]
fn plan_uses_first_responding_eth_and_reset_flags() {
    let mut p = loaded();
    let first = index_of(&p, "10.0.0.1");
    let probes: Vec<(usize, bool)> = all_up(&p);
    p.record_probes(&probes);
    p.handle_message(BackgroundMessage::Reset("PLC2".to_string()));
    let requests = p.plan_transactions();
    assert_eq!(
        requests,
        vec![
            ("PLC1".to_string(), "10.0.0.1".to_string(), false),
            ("PLC2".to_string(), "10.0.1.1".to_string(), true),
        ]
    );
    assert_eq!(first, 0);
    p.finish_cycle();
    assert!(p.to_reset.is_empty());
}

#[test]
fn missing_probe_counts_as_down() {
    let mut p = loaded();
    p.record_probes(&vec![]);
    assert!(!p.systems[0].eths_ok());
    assert!(!p.systems[1].eths_ok());
    assert!(p.plan_transactions().is_empty());
    assert_eq!(p.systems[0].eth_status(), "0/2");
}

#[test]
fn deadline_leaves_alarm_unknown_and_next_cycle_retries() {
    let mut p = loaded();
    let up = all_up(&p);
    p.record_probes(&up);
    let requests = p.plan_transactions();
    // no transaction finished before the deadline
    p.record_alarms(&merge_alarm_results(&requests, &vec![]));
    assert_eq!(p.systems[0].active_alarms(), None);
    assert_eq!(p.systems[1].active_alarms(), None);
    p.finish_cycle();
    p.record_probes(&up);
    let again = p.plan_transactions();
    assert_eq!(again.len(), 2);
    p.record_alarms(&merge_alarm_results(&again, &vec![(0, Some(true))]));
    assert_eq!(p.systems[0].active_alarms(), Some(true));
}

#[test]
fn pause_is_the_rest_of_the_period() {
    assert_eq!(pause_millis(1000, 300), 700);
    assert_eq!(pause_millis(1000, 1000), 0);
    assert_eq!(pause_millis(1000, 2500), 0);
    assert_eq!(pause_millis(0, 0), 0);
}
