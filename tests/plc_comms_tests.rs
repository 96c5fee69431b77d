use plc_recovery::plc_comms::{
    alarm_tag, auto_reset_tag, manual_reset_tag, merge_alarm_results, DeviceAction, Phase, Reply,
    Transaction,
};

fn tx(name: &str, reset: bool) -> Transaction {
    Transaction::new(name.to_string(), "10.0.0.1".to_string(), reset)
}

#[test]
fn tag_names_follow_the_system_name() {
    assert_eq!(alarm_tag("PLC1"), "B_PLC1_SumAlarm_hb");
    assert_eq!(manual_reset_tag("PLC1"), "B_PLC1_Alarm_Reset_Man_C");
    assert_eq!(auto_reset_tag("PLC1"), "B_PLC1_Alarm_Reset_Auto_C");
}

#[test]
fn read_without_reset_closes_and_reports_value() {
    let mut t = tx("PLC1", false);
    assert!(matches!(t.step(Reply::Started), DeviceAction::Connect));
    assert!(matches!(t.step(Reply::Connected), DeviceAction::Read(_)));
    assert!(matches!(t.step(Reply::Value(true)), DeviceAction::Close));
    assert!(matches!(t.step(Reply::Closed), DeviceAction::Finish(Some(true))));
    assert_eq!(t.phase, Phase::Done);
}

#[test]
fn reset_writes_both_tags_after_a_successful_read() {
    let mut t = tx("PLC1", true);
    assert!(matches!(t.step(Reply::Started), DeviceAction::Connect));
    assert!(matches!(t.step(Reply::Connected), DeviceAction::Read(_)));
    assert!(matches!(t.step(Reply::Value(false)), DeviceAction::Write(_)));
    assert_eq!(t.phase, Phase::WritingManual);
    assert!(matches!(t.step(Reply::WriteFinished), DeviceAction::Write(_)));
    assert_eq!(t.phase, Phase::WritingAuto);
    assert!(matches!(t.step(Reply::WriteFinished), DeviceAction::Close));
    assert!(matches!(t.step(Reply::Closed), DeviceAction::Finish(Some(false))));
}

#[test]
fn failed_read_never_writes() {
    let mut t = tx("PLC1", true);
    t.step(Reply::Started);
    t.step(Reply::Connected);
    assert!(matches!(t.step(Reply::ReadFailed), DeviceAction::Finish(None)));
    assert!(matches!(t.step(Reply::Closed), DeviceAction::Finish(None)));
}

#[test]
fn failed_connect_is_unknown() {
    let mut t = tx("PLC1", true);
    t.step(Reply::Started);
    assert!(matches!(t.step(Reply::ConnectFailed), DeviceAction::Finish(None)));
    assert_eq!(t.value, None);
}

#[test]
fn unparsable_tag_is_unknown() {
    let mut t = tx("PLC 1", false);
    t.step(Reply::Started);
    assert!(matches!(t.step(Reply::Connected), DeviceAction::Finish(None)));
}

#[test]
fn overlong_reset_tag_is_skipped_but_value_kept() {
    // 20 characters: the alarm and manual reset tags parse, the automatic one is too long
    let mut t = tx("ABCDEFGHIJKLMNOPQRST", true);
    t.step(Reply::Started);
    assert!(matches!(t.step(Reply::Connected), DeviceAction::Read(_)));
    assert!(matches!(t.step(Reply::Value(true)), DeviceAction::Write(_)));
    assert!(matches!(t.step(Reply::WriteFinished), DeviceAction::Close));
    assert!(matches!(t.step(Reply::Closed), DeviceAction::Finish(Some(true))));
}

#[test]
fn transaction_past_deadline_is_unknown() {
    let requests = vec![
        ("PLC1".to_string(), "10.0.0.1".to_string(), false),
        ("PLC2".to_string(), "10.0.0.2".to_string(), true),
        ("PLC3".to_string(), "10.0.0.3".to_string(), false),
    ];
    let completed = vec![(0, Some(true)), (2, None)];
    let r = merge_alarm_results(&requests, &completed);
    assert_eq!(
        r,
        vec![
            ("PLC1".to_string(), Some(true)),
            ("PLC2".to_string(), None),
            ("PLC3".to_string(), None),
        ]
    );
}

#[test]
fn merge_with_nothing_completed_is_all_unknown() {
    let requests = vec![("A".to_string(), "1".to_string(), false)];
    assert_eq!(merge_alarm_results(&requests, &vec![]), vec![("A".to_string(), None)]);
    assert_eq!(
        merge_alarm_results(&requests, &vec![(7, Some(false)), (0, Some(false))]),
        vec![("A".to_string(), Some(false))]
    );
}
