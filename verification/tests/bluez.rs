use linuxpods::bluez::{
    adapter_path, connection_event, device_name_entry, device_names, find_connected_airpods, is_airpods,
    AttachAction, Attachments, ConnectionEvent, DeviceProps,
};
use linuxpods::podstate::{PodState, Snapshot};
use linuxpods::strmap::StrMap;

#[test]
fn name_entry_needs_an_address_and_an_alias() {
    assert_eq!(device_name_entry(None, Some("Marcel's AirPods Pro")), None);
    assert_eq!(
        device_name_entry(Some("aa:bb:cc:dd:ee:ff"), Some("Marcel's AirPods Pro")),
        Some(("AA:BB:CC:DD:EE:FF".to_string(), "Marcel's AirPods Pro".to_string()))
    );
    assert_eq!(device_name_entry(None, None), None);
}

#[test]
fn name_entry_refuses_empty_properties() {
    assert_eq!(device_name_entry(Some(""), Some("AirPods")), None);
    assert_eq!(device_name_entry(Some("aa:bb:cc:dd:ee:ff"), Some("")), None);
}

#[test]
fn bluez_identifies_airpods_by_alias() {
    assert!(is_airpods(Some("Marcel's AirPods Pro")));
    assert!(is_airpods(Some("AirPods")));
    assert!(!is_airpods(Some("Sony WH-1000XM5")));
    assert!(!is_airpods(None));
}

#[test]
fn identifies_airpods_by_alias() {
    assert!(is_airpods(Some("Marcel's AirPods Pro")));
    assert!(is_airpods(Some("AirPods")));
    assert!(!is_airpods(Some("Sony WH-1000XM5")));
    assert!(!is_airpods(None));
}

#[test]
fn watches_the_first_adapter() {
    assert_eq!(adapter_path(), "/org/bluez/hci0");
}

fn device(path: &str, alias: Option<&str>, address: Option<&str>, connected: Option<bool>) -> DeviceProps {
    DeviceProps {
        path: path.to_string(),
        alias: alias.map(str::to_string),
        address: address.map(str::to_string),
        connected,
    }
}

#[test]
fn finds_the_first_connected_airpods() {
    let devices = vec![
        device("/org/bluez/hci0/dev_1", Some("Keyboard"), None, Some(true)),
        device("/org/bluez/hci0/dev_2", Some("AirPods Pro"), None, Some(false)),
        device("/org/bluez/hci0/dev_3", Some("My AirPods"), None, Some(true)),
        device("/org/bluez/hci0/dev_4", Some("AirPods Max"), None, Some(true)),
    ];
    assert_eq!(find_connected_airpods(&devices).as_deref(), Some("/org/bluez/hci0/dev_3"));
    assert_eq!(find_connected_airpods(&devices[..2].to_vec()), None);
}

#[test]
fn names_every_device_with_an_address_and_an_alias() {
    let devices = vec![
        device("/a", Some("Pods"), Some("aa:bb:cc:dd:ee:ff"), None),
        device("/b", None, Some("11:22:33:44:55:66"), None),
        device("/c", Some("Renamed"), Some("AA:BB:CC:DD:EE:FF"), None),
    ];
    let names = device_names(&devices);
    assert_eq!(names.len(), 1);
    assert_eq!(names.get("AA:BB:CC:DD:EE:FF").map(String::as_str), Some("Renamed"));
    assert!(names.get("11:22:33:44:55:66").is_none());
}

#[test]
fn only_device_connection_changes_are_events() {
    let e = connection_event("/org/bluez/hci0/dev_X", "org.bluez.Device1", Some(true)).unwrap();
    assert_eq!(e.device_path, "/org/bluez/hci0/dev_X");
    assert!(e.connected);
    assert!(connection_event("/org/bluez/hci0/dev_X", "org.bluez.Device1", None).is_none());
    assert!(connection_event("/org/bluez/hci0", "org.bluez.Adapter1", Some(true)).is_none());
}

#[test]
fn attaches_airpods_and_detaches_only_them() {
    let mut att = Attachments::new();
    let up = ConnectionEvent { device_path: "/dev_A".to_string(), connected: true };
    match att.on_connection_event(&up, "Marcel's AirPods") {
        AttachAction::Attach(p) => assert_eq!(p, "/dev_A"),
        _ => panic!("AirPods should attach"),
    }
    assert!(matches!(att.on_connection_event(&up, "Keyboard"), AttachAction::Ignore));
    att.record("/dev_A", "AA:BB:CC:DD:EE:FF");
    att.record("/dev_B", "11:22:33:44:55:66");

    let other_down = ConnectionEvent { device_path: "/dev_C".to_string(), connected: false };
    assert!(matches!(att.on_connection_event(&other_down, ""), AttachAction::Ignore));

    let down = ConnectionEvent { device_path: "/dev_A".to_string(), connected: false };
    match att.on_connection_event(&down, "") {
        AttachAction::Detach(mac) => assert_eq!(mac, "AA:BB:CC:DD:EE:FF"),
        _ => panic!("attached AirPods should detach"),
    }
    assert!(att.attached.get("/dev_A").is_none());
    assert!(att.attached.get("/dev_B").is_some());
}

#[test]
fn mirrors_the_lowest_of_the_three_levels_of_each_attached_device() {
    let mut att = Attachments::new();
    att.record("/dev_A", "aa");
    att.record("/dev_B", "bb");
    att.record("/dev_C", "cc");
    att.record("/dev_D", "dd");
    att.record("/dev_E", "ee");
    let mut states = StrMap::new();
    states.insert("aa".to_string(), PodState { left_battery: Some(80), right_battery: Some(60), case_battery: Some(10), ..Default::default() });
    states.insert("bb".to_string(), PodState::default());
    states.insert("dd".to_string(), PodState { case_battery: Some(45), ..Default::default() });
    states.insert("ee".to_string(), PodState { left_battery: Some(70), right_battery: Some(90), case_battery: Some(100), ..Default::default() });
    let snap = Snapshot { states, connected_macs: vec![], known_keys: vec![], device_names: StrMap::new() };
    assert_eq!(
        att.battery_levels(&snap),
        vec![("aa".to_string(), 10u8), ("dd".to_string(), 45u8), ("ee".to_string(), 70u8)]
    );
}
