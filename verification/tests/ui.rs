use linuxpods::aap::noise::NoiseMode;
use linuxpods::podstate::{DataSource, PodState, Snapshot};
use linuxpods::strmap::StrMap;
use linuxpods::ui::{
    battery_display, battery_text, choose_device, device_entries, device_labels, device_view, keeps_row,
    last_seen_text, row_status, row_subtitle, row_title, status_line, switcher_visible, DeviceView, RowStyle,
};

#[test]
fn status_line_shows_what_the_airpods_are_doing() {
    let state = PodState {
        source: DataSource::Ble,
        model_name: "AirPods Pro 3".into(),
        lid_open: Some(true),
        connection_state: Some(0x05),
        ..Default::default()
    };
    assert_eq!(status_line(&state), "AirPods Pro 3 • Lid: Open • Music • Source: BLE");
}

#[test]
fn status_line_omits_activity_on_aap() {
    let state = PodState {
        source: DataSource::Aap,
        model_name: "AirPods Pro 3".into(),
        connection_state: None,
        ..Default::default()
    };
    assert_eq!(status_line(&state), "AirPods Pro 3 • Source: AAP");
}

#[test]
fn status_line_names_what_it_can() {
    let unnamed = PodState { device_model: 0x1234, lid_open: Some(false), ..Default::default() };
    assert_eq!(status_line(&unnamed), "Unknown (0x1234) • Lid: Closed • Source: unknown");
    assert_eq!(status_line(&PodState::default()), "AirPods • Source: unknown");
}

#[test]
fn last_seen_counts_whole_minutes() {
    assert_eq!(last_seen_text(5_000), "Last seen just now");
    assert_eq!(last_seen_text(60_000), "Last seen 1 min ago");
    assert_eq!(last_seen_text((29 * 60 + 59) * 1000), "Last seen 29 min ago");
}

fn snapshot(names: &[(&str, &str)], models: &[(&str, &str)]) -> Snapshot {
    let mut states = StrMap::new();
    for (mac, model) in models {
        states.insert(mac.to_string(), PodState { model_name: model.to_string(), ..Default::default() });
    }
    let mut device_names = StrMap::new();
    for (mac, name) in names {
        device_names.insert(mac.to_string(), name.to_string());
    }
    Snapshot { states, device_names, ..Default::default() }
}

#[test]
fn labels_prefer_the_bluetooth_name() {
    let macs = vec!["AA:BB:CC:DD:EE:FF".to_string()];
    let snap = snapshot(&[("AA:BB:CC:DD:EE:FF", "Marcel's AirPods Pro")], &[("AA:BB:CC:DD:EE:FF", "AirPods Pro 2")]);
    assert_eq!(device_labels(&macs, &snap), ["Marcel's AirPods Pro"]);
}

#[test]
fn labels_fall_back_to_the_model_then_the_mac() {
    let macs = vec!["AA:BB:CC:DD:EE:FF".to_string(), "11:22:33:44:55:66".to_string()];
    let snap = snapshot(&[], &[("AA:BB:CC:DD:EE:FF", "AirPods Pro 2")]);
    assert_eq!(device_labels(&macs, &snap), ["AirPods Pro 2", "11:22:33:44:55:66"]);
}

#[test]
fn duplicate_names_keep_the_mac() {
    let macs = vec!["AA:BB:CC:DD:EE:FF".to_string(), "11:22:33:44:55:66".to_string(), "77:88:99:AA:BB:CC".to_string()];
    let snap = snapshot(
        &[("AA:BB:CC:DD:EE:FF", "AirPods Pro"), ("11:22:33:44:55:66", "AirPods Pro"), ("77:88:99:AA:BB:CC", "AirPods Max")],
        &[],
    );
    assert_eq!(
        device_labels(&macs, &snap),
        ["AirPods Pro (AA:BB:CC:DD:EE:FF)", "AirPods Pro (11:22:33:44:55:66)", "AirPods Max"]
    );
}

#[test]
fn the_battery_display_shows_levels_and_marks() {
    let state = PodState {
        source: DataSource::Ble,
        left_battery: Some(80),
        left_charging: true,
        left_in_ear: true,
        right_battery: Some(75),
        right_in_ear: true,
        case_battery: None,
        case_charging: true,
        model_name: "AirPods Pro 3".into(),
        last_seen: Some(1_000),
        ..Default::default()
    };
    let d = battery_display(&state, 1_000 + 120_000);
    assert_eq!(d.left, "80% ⚡ 👂");
    assert_eq!(d.right, "75% 👂");
    assert_eq!(d.case, "--");
    assert_eq!(d.status, "AirPods Pro 3 • Source: BLE");
    assert_eq!(d.last_seen.as_deref(), Some("Last seen 2 min ago"));
    assert_eq!(battery_text(Some(5), ""), "5%");
}

#[test]
fn the_control_tab_tells_waiting_from_out_of_range() {
    let mut snap = snapshot(&[], &[("aa", "AirPods Pro 3")]);
    snap.connected_macs = vec!["bb".to_string()];
    match device_view(&snap, Some("bb"), 0) {
        DeviceView::Empty { status } => assert_eq!(status, "Connected • waiting for data"),
        _ => panic!("nothing was heard from bb"),
    }
    match device_view(&snap, Some("cc"), 0) {
        DeviceView::Empty { status } => assert_eq!(status, "No recent data"),
        _ => panic!("nothing was heard from cc"),
    }
    match device_view(&snap, Some("aa"), 0) {
        DeviceView::Shown { interactive, noise_mode, .. } => {
            assert!(!interactive);
            assert_eq!(noise_mode, None);
        }
        _ => panic!("aa has a state"),
    }
}

#[test]
fn the_control_tab_is_interactive_over_aap() {
    let mut states = StrMap::new();
    states.insert("aa".to_string(), PodState { source: DataSource::Aap, noise_mode: Some(NoiseMode::Transparency), ..Default::default() });
    let snap = Snapshot { states, ..Default::default() };
    match device_view(&snap, Some("aa"), 0) {
        DeviceView::Shown { interactive, noise_mode, .. } => {
            assert!(interactive);
            assert_eq!(noise_mode, Some(NoiseMode::Transparency));
        }
        _ => panic!("aa has a state"),
    }
}

#[test]
fn the_switcher_keeps_the_selection_then_prefers_the_link() {
    let macs = vec!["aa".to_string(), "bb".to_string(), "cc".to_string()];
    let connected = vec!["zz".to_string(), "bb".to_string()];
    assert_eq!(choose_device(Some("cc"), &macs, &connected).as_deref(), Some("cc"));
    assert_eq!(choose_device(Some("gone"), &macs, &connected).as_deref(), Some("bb"));
    assert_eq!(choose_device(None, &macs, &vec![]).as_deref(), Some("aa"));
    assert_eq!(choose_device(None, &vec![], &connected), None);
    assert!(switcher_visible(&macs));
    assert!(!switcher_visible(&vec!["aa".to_string()]));
}

#[test]
fn development_rows_list_known_devices_then_strangers() {
    let mut snap = snapshot(&[], &[("zz", ""), ("bb", ""), ("yy", "")]);
    snap.known_keys = vec!["bb".to_string(), "cc".to_string()];
    let entries = device_entries(&snap);
    assert_eq!(
        entries,
        vec![("bb".to_string(), true), ("cc".to_string(), true), ("yy".to_string(), false), ("zz".to_string(), false)]
    );
    assert!(keeps_row(&snap, "cc"));
    assert!(keeps_row(&snap, "zz"));
    assert!(!keeps_row(&snap, "qq"));
}

#[test]
fn row_titles_show_the_rotating_address() {
    let s = PodState { current_ble_mac: "5C:4D".into(), ..Default::default() };
    assert_eq!(row_title("AA:BB", Some(&s)), "AA:BB • BLE: 5C:4D");
    let same = PodState { current_ble_mac: "AA:BB".into(), ..Default::default() };
    assert_eq!(row_title("AA:BB", Some(&same)), "AA:BB");
    assert_eq!(row_title("AA:BB", None), "AA:BB");
}

#[test]
fn row_subtitles_show_the_model_name() {
    let s = PodState { model_name: "AirPods Pro 3".into(), ..Default::default() };
    assert_eq!(row_subtitle(Some(&s)), "AirPods Pro 3");
    assert_eq!(row_subtitle(Some(&PodState::default())), "");
    assert_eq!(row_subtitle(None), "");
}

#[test]
fn row_status_prefers_connection_then_key_then_age() {
    let now = 10_000_000;
    let fresh = PodState { last_seen: Some(now - 5_000), ..Default::default() };
    let cached = PodState { last_seen: Some(now - 180_000), ..Default::default() };
    assert_eq!(row_status(true, true, None, now), ("Connected".to_string(), RowStyle::Success));
    assert_eq!(row_status(false, false, Some(&fresh), now), ("No key".to_string(), RowStyle::Warning));
    assert_eq!(row_status(true, false, Some(&fresh), now), ("Advertising".to_string(), RowStyle::Dim));
    assert_eq!(row_status(true, false, Some(&cached), now), ("Last seen 3 min ago".to_string(), RowStyle::Dim));
    assert_eq!(row_status(true, false, None, now), ("Idle".to_string(), RowStyle::Dim));
    assert_eq!(RowStyle::Warning.css_class(), "warning");
}
