use linuxpods::mock::mock_snapshot;
use linuxpods::podstate::DataSource;

#[test]
fn the_stand_in_drains_the_connected_pair() {
    let snap = mock_snapshot(1);
    let a = snap.states.get("AA:BB:CC:DD:EE:FF").unwrap();
    assert_eq!(a.source, DataSource::Aap);
    assert_eq!(a.left_battery, Some(97));
    assert_eq!(a.right_battery, Some(93));
    assert_eq!(a.case_battery, Some(86));
    assert_eq!(a.current_ble_mac, "51:00:00:00:00:01");
    assert_eq!(a.lid_open, Some(true));
    assert!(snap.states.get("11:22:33:44:55:66").is_none());
    assert_eq!(snap.connected_macs, ["AA:BB:CC:DD:EE:FF"]);
}

#[test]
fn the_second_pair_appears_after_three_ticks() {
    let snap = mock_snapshot(4);
    assert!(snap.states.get("AA:BB:CC:DD:EE:FF").unwrap().left_charging);
    let b = snap.states.get("11:22:33:44:55:66").unwrap();
    assert_eq!(b.source, DataSource::Ble);
    assert_eq!(b.left_battery, Some(55));
    assert!(!b.identified);
    let late = mock_snapshot(36);
    assert_eq!(late.states.get("AA:BB:CC:DD:EE:FF").unwrap().left_battery, Some(92));
    assert_eq!(mock_snapshot(33).states.get("AA:BB:CC:DD:EE:FF").unwrap().right_battery, Some(0));
}
