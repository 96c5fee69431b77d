use plc_recovery::prober::Multipinger;

fn addrs(v: &[&str]) -> Vec<String> {
    v.iter().map(|s| s.to_string()).collect()
}

#[test]
fn ping_options_follow_platform() {
    assert_eq!(Multipinger::new(vec![], "windows").arguments, vec!["-n", "2", "-w", "1000"]);
    assert_eq!(Multipinger::new(vec![], "linux").arguments, vec!["-c", "2", "-W", "1"]);
    assert_eq!(Multipinger::new(vec![], "macos").arguments, vec!["-c", "2", "-t", "1"]);
    assert_eq!(Multipinger::new(vec![], "freebsd").arguments, vec!["-c", "2", "-W", "1"]);
}

#[test]
fn ping_command_appends_the_address() {
    let p = Multipinger::new(addrs(&["10.0.0.1", "10.0.0.2"]), "linux");
    assert_eq!(p.ping_command(1), vec!["-c", "2", "-W", "1", "10.0.0.2"]);
}

#[test]
fn every_address_gets_an_entry() {
    let p = Multipinger::new(addrs(&["a", "b", "c"]), "linux");
    let r = p.merge_results(&vec![(2, true), (0, false)]);
    assert_eq!(
        r,
        vec![("a".to_string(), false), ("b".to_string(), false), ("c".to_string(), true)]
    );
}

#[test]
fn merge_ignores_out_of_range_indices() {
    let p = Multipinger::new(addrs(&["a"]), "linux");
    let r = p.merge_results(&vec![(5, true), (0, true)]);
    assert_eq!(r, vec![("a".to_string(), true)]);
    let none = p.merge_results(&vec![]);
    assert_eq!(none, vec![("a".to_string(), false)]);
}
