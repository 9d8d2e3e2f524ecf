use linuxpods::aap::battery::{Battery, BatteryInfo, Component, Status};
use linuxpods::aap::noise::NoiseMode;
use linuxpods::ble::parser::parse_proximity_data;
use linuxpods::podstate::inner::{Entry, Inner, Link};
use linuxpods::podstate::{DataSource, PodState, Snapshot, BLE_CACHE_TTL, DEVICE_TTL};
use linuxpods::strmap::StrMap;

const NOW: u64 = 100_000_000;

fn entry(age_ms: u64) -> Entry {
    Entry { state: PodState::default(), last_seen: NOW - age_ms }
}

fn inner_with(devices: Vec<(&str, u64)>) -> Inner {
    let mut inner = Inner::new(StrMap::new());
    for (m, age) in devices {
        inner.ble.insert(m.to_string(), entry(age));
    }
    inner
}

fn link(reading: Option<PodState>) -> Link {
    Link { client_id: 1, reading, since: NOW }
}

fn aap_state(left: u8) -> PodState {
    PodState { source: DataSource::Aap, left_battery: Some(left), ..Default::default() }
}

fn ble_state(left: u8) -> PodState {
    PodState { source: DataSource::Ble, left_battery: Some(left), identified: true, ..Default::default() }
}

#[test]
fn podstate_prune_drops_only_stale_devices() {
    let mut inner = inner_with(vec![("fresh", 1 * 1000), ("stale", 300 * 1000)]);
    assert!(inner.prune(NOW));
    assert!(inner.ble.contains_key("fresh"));
    assert!(!inner.ble.contains_key("stale"));
    assert!(!inner.prune(NOW), "nothing left to expire");
}

#[test]
fn identified_readings_are_cached_for_the_cache_ttl() {
    let mut inner = inner_with(vec![]);
    for (mac, age) in [("recent", 10 * 60), ("expired", 31 * 60)] {
        inner.ble.insert(
            mac.to_string(),
            Entry { state: PodState { identified: true, ..Default::default() }, last_seen: NOW - age * 1000 },
        );
    }
    inner.prune(NOW);
    assert!(inner.ble.contains_key("recent"));
    assert!(!inner.ble.contains_key("expired"));
}

#[test]
fn podstate_rotating_ble_macs_do_not_accumulate() {
    let mut inner = inner_with(vec![]);
    let start = NOW;
    // 500 rotations, one every 30s - far past the TTL.
    for i in 0..500u64 {
        let now = start + i * 30 * 1000;
        inner.ble.insert(format!("random-mac-{i}"), Entry { state: PodState::default(), last_seen: now });
        inner.prune(now);
    }
    assert!(inner.ble.len() <= 5, "expected bounded map, got {} entries", inner.ble.len());
}

#[test]
fn ttls_are_two_minutes_and_half_an_hour() {
    assert_eq!(DEVICE_TTL, 120_000);
    assert_eq!(BLE_CACHE_TTL, 30 * 60 * 1000);
    let mut inner = inner_with(vec![("edge", DEVICE_TTL), ("inside", DEVICE_TTL - 1)]);
    inner.prune(NOW);
    assert!(!inner.ble.contains_key("edge"));
    assert!(inner.ble.contains_key("inside"));
}

#[test]
fn aap_hides_the_connected_devices_ble_reading() {
    let mut inner = inner_with(vec![]);
    inner.ble.insert("aa".to_string(), Entry { state: ble_state(70), last_seen: NOW });
    inner.links.insert("aa".to_string(), link(None));
    assert!(!inner.snapshot().states.contains_key("aa"), "before the first AAP packet the device waits for data");

    inner.links.insert("aa".to_string(), link(Some(aap_state(83))));
    let snap = inner.snapshot();
    let s = snap.states.get("aa").unwrap();
    assert_eq!(s.source, DataSource::Aap);
    assert_eq!(s.left_battery, Some(83));
    assert_eq!(s.last_seen, None);
}

#[test]
fn disconnect_falls_back_to_the_cached_advertisement() {
    let seen = NOW - 90_000;
    let mut inner = inner_with(vec![]);
    inner.ble.insert("aa".to_string(), Entry { state: ble_state(70), last_seen: seen });
    inner.links.insert("aa".to_string(), link(Some(aap_state(83))));

    let (client, _) = inner.drop_link("aa", None).unwrap();
    assert_eq!(client, 1);

    let snap = inner.snapshot();
    let s = snap.states.get("aa").unwrap();
    assert_eq!(s.source, DataSource::Ble);
    assert_eq!(s.left_battery, Some(70));
    assert_eq!(s.last_seen, Some(seen));
}

#[test]
fn links_are_per_device() {
    let mut inner = inner_with(vec![]);
    inner.links.insert("aa".to_string(), link(Some(aap_state(83))));
    inner.links.insert("bb".to_string(), link(Some(aap_state(41))));

    let snap = inner.snapshot();
    assert_eq!(snap.states.get("aa").unwrap().left_battery, Some(83));
    assert_eq!(snap.states.get("bb").unwrap().left_battery, Some(41));
    assert!(snap.is_connected("aa") && snap.is_connected("bb"));

    inner.links.remove("aa");
    let snap = inner.snapshot();
    assert!(!snap.is_connected("aa"));
    assert!(!snap.states.contains_key("aa"));
    assert_eq!(snap.states.get("bb").unwrap().source, DataSource::Aap);
}

#[test]
fn connected_macs_follow_connection_order() {
    let mut inner = inner_with(vec![]);
    for (mac, age) in [("bb", 5), ("cc", 1), ("aa", 10)] {
        inner.links.insert(mac.to_string(), Link { client_id: 1, reading: None, since: NOW - age * 1000 });
    }
    assert_eq!(inner.snapshot().connected_macs, ["aa", "bb", "cc"]);
}

#[test]
fn a_stale_read_loop_cannot_touch_a_newer_link() {
    let stale = 7;
    let mut inner = inner_with(vec![]);
    inner.links.insert("aa".to_string(), Link { client_id: 8, reading: None, since: NOW });

    assert!(inner.handle_battery_info(&BatteryInfo::default(), "aa", stale).is_none());
    assert!(inner.links.get("aa").unwrap().reading.is_none());

    assert!(inner.drop_link("aa", Some(stale)).is_none());
    assert!(inner.links.contains_key("aa"));

    assert!(inner.drop_link("aa", None).is_some());
    assert!(inner.links.is_empty());
}

#[test]
fn snapshot_attaches_the_mode_to_the_connected_device_only() {
    let mut inner = inner_with(vec![("bb", 1_000)]);
    inner.noise_modes.insert("aa".to_string(), NoiseMode::Adaptive);
    inner.noise_modes.insert("bb".to_string(), NoiseMode::Transparency);
    inner.links.insert("aa".to_string(), link(Some(aap_state(80))));

    let snap = inner.snapshot();
    assert_eq!(snap.states.get("aa").unwrap().noise_mode, Some(NoiseMode::Adaptive));
    assert_eq!(snap.states.get("bb").unwrap().noise_mode, None, "a device we cannot command must not show a selected mode");

    inner.links.insert("aa".to_string(), link(Some(aap_state(79))));
    assert_eq!(inner.snapshot().states.get("aa").unwrap().noise_mode, Some(NoiseMode::Adaptive));
}

#[test]
fn snapshot_leaves_an_unreported_mode_unset() {
    let mut inner = inner_with(vec![]);
    inner.links.insert("aa".to_string(), link(Some(aap_state(80))));
    assert_eq!(inner.snapshot().states.get("aa").unwrap().noise_mode, None);
}

#[test]
fn aap_supersedes_ble_only_for_the_connected_device() {
    let mut inner = inner_with(vec![]);
    assert!(!inner.supersedes_ble("aa"));
    inner.links.insert("aa".to_string(), link(None));
    assert!(inner.supersedes_ble("aa"));
    assert!(!inner.supersedes_ble("bb"));
    assert!(!inner.supersedes_ble("5C:4D:3F:B5:41:B6"));
}

/// The older coordinator's form of the prune: one TTL for every entry.
#[test]
fn prune_drops_only_stale_devices() {
    let mut inner = inner_with(vec![("fresh", 1 * 1000), ("stale", 300 * 1000)]);
    assert!(inner.prune(NOW));
    assert!(inner.ble.contains_key("fresh"));
    assert!(!inner.ble.contains_key("stale"));
    assert!(!inner.prune(NOW), "nothing left to expire");
}

#[test]
fn a_second_prune_keeps_everything_the_first_kept() {
    let mut inner = inner_with(vec![("a", 0), ("b", 119 * 1000), ("c", 121 * 1000)]);
    assert!(inner.prune(NOW));
    let kept = inner.ble.len();
    assert!(!inner.prune(NOW));
    assert_eq!(inner.ble.len(), kept);
    assert_eq!(kept, 2);
}

#[test]
fn a_mac_every_thirty_seconds_leaves_at_most_four_after_a_prune() {
    let mut inner = inner_with(vec![]);
    for i in 0..20u64 {
        let now = NOW + i * 30 * 1000;
        inner.ble.insert(format!("random-mac-{i}"), Entry { state: PodState::default(), last_seen: now });
        inner.prune(now);
        assert!(inner.ble.len() <= 4, "got {} entries", inner.ble.len());
    }
    assert_eq!(inner.ble.len(), 4);
}

#[test]
fn rotating_ble_macs_do_not_accumulate() {
    let mut inner = inner_with(vec![]);
    for i in 0..500u64 {
        let now = NOW + i * 30 * 1000;
        inner.ble.insert(format!("random-mac-{i}"), Entry { state: PodState::default(), last_seen: now });
        inner.prune(now);
    }
    // Only entries inside the 120s window survive.
    assert!(inner.ble.len() <= 5, "expected bounded map, got {} entries", inner.ble.len());
}

#[test]
fn lowest_earbud_handles_missing_values() {
    let mut s = PodState { left_battery: Some(80), right_battery: Some(60), ..Default::default() };
    assert_eq!(s.lowest_earbud(), Some(60));
    s.right_battery = None;
    assert_eq!(s.lowest_earbud(), Some(80));
    s.left_battery = None;
    assert_eq!(s.lowest_earbud(), None);
}

#[test]
fn podstate_lowest_earbud_handles_missing_values() {
    let mut s = PodState { left_battery: Some(80), right_battery: Some(60), ..Default::default() };
    assert_eq!(s.lowest_earbud(), Some(60));
    s.right_battery = None;
    assert_eq!(s.lowest_earbud(), Some(80));
    s.left_battery = None;
    assert_eq!(s.lowest_earbud(), None);
}

fn snapshot_of(states: Vec<(&str, PodState)>, connected: Vec<&str>) -> Snapshot {
    let mut map = StrMap::new();
    for (mac, s) in states {
        map.insert(mac.to_string(), s);
    }
    Snapshot {
        states: map,
        connected_macs: connected.into_iter().map(str::to_string).collect(),
        known_keys: vec![],
        device_names: StrMap::new(),
    }
}

#[test]
fn podstate_snapshot_primary_prefers_connected_device() {
    let snap = snapshot_of(
        vec![
            ("aa", PodState { device_model: 1, ..Default::default() }),
            ("bb", PodState { device_model: 2, ..Default::default() }),
        ],
        vec!["bb"],
    );
    assert_eq!(snap.primary().unwrap().device_model, 2);
}

#[test]
fn snapshot_primary_prefers_connected_device() {
    let snap = snapshot_of(
        vec![
            ("aa", PodState { device_model: 1, ..Default::default() }),
            ("bb", PodState { device_model: 2, ..Default::default() }),
        ],
        vec!["bb"],
    );
    assert_eq!(snap.primary().unwrap().device_model, 2);
}

#[test]
fn primary_ignores_unidentified_devices() {
    let snap = snapshot_of(
        vec![
            ("known", PodState { device_model: 7, identified: true, ..Default::default() }),
            ("stranger", PodState { device_model: 9, identified: false, ..Default::default() }),
        ],
        vec![],
    );
    assert_eq!(snap.primary().unwrap().device_model, 7);
}

#[test]
fn primary_falls_back_to_an_identified_device() {
    let snap = snapshot_of(vec![("stranger", PodState { identified: false, ..Default::default() })], vec![]);
    assert!(snap.primary().is_none(), "an unidentified device is not a primary");
}

#[test]
fn primary_prefers_the_longest_link() {
    let snap = snapshot_of(
        vec![("aa", PodState { device_model: 1, ..Default::default() }), ("bb", PodState { device_model: 2, ..Default::default() })],
        vec!["cc", "aa", "bb"],
    );
    assert_eq!(snap.primary().unwrap().device_model, 1);
}

#[test]
fn device_names_are_looked_up_by_uppercase_mac() {
    let mut snap = snapshot_of(vec![], vec![]);
    snap.device_names.insert("AA:BB:CC:DD:EE:FF".to_string(), "Pods".to_string());
    assert_eq!(snap.device_name("aa:bb:cc:dd:ee:ff"), Some("Pods"));
    assert_eq!(snap.device_name("11:22:33:44:55:66"), None);
}

#[test]
fn known_keys_are_sorted() {
    let mut keys = StrMap::new();
    keys.insert("CC".to_string(), vec![1u8]);
    keys.insert("AA".to_string(), vec![2u8]);
    keys.insert("BB".to_string(), vec![3u8]);
    let inner = Inner::new(keys);
    assert_eq!(inner.snapshot().known_keys, ["AA", "BB", "CC"]);
    assert_eq!(inner.known_key_count(), 3);
    assert!(inner.has_encryption_keys());
}

fn advert(status: u8, battery: u8) -> Vec<u8> {
    let mut payload = vec![0x01, 0x27, 0x20, status, battery, 0x00, 0x51, 0x00, 0x05];
    payload.extend([0xAB; 16]);
    let mut v = vec![0x07, payload.len() as u8];
    v.extend_from_slice(&payload);
    v
}

#[test]
fn an_unidentified_advertisement_is_filed_under_its_random_mac() {
    let mut inner = inner_with(vec![]);
    let data = parse_proximity_data(&advert(0b0010_0000, 0x87)).unwrap();
    let snap = inner.handle_advertisement(data, "5C:4D:3F:B5:41:B6".to_string(), NOW).unwrap();
    let s = snap.states.get("5C:4D:3F:B5:41:B6").unwrap();
    assert!(!s.identified);
    assert_eq!(s.source, DataSource::Ble);
    assert_eq!(s.left_battery, Some(80));
    assert_eq!(s.model_name, "AirPods Pro 3");
    assert_eq!(s.connection_state, Some(0x05));
    assert_eq!(s.last_seen, Some(NOW));
    assert_eq!(s.real_mac, "");
}

#[test]
fn the_linked_devices_own_advertisement_is_recorded_but_not_broadcast() {
    let mut inner = inner_with(vec![]);
    inner.links.insert("5C:4D:3F:B5:41:B6".to_string(), link(None));
    let data = parse_proximity_data(&advert(0b0010_0000, 0x87)).unwrap();
    assert!(inner.handle_advertisement(data, "5C:4D:3F:B5:41:B6".to_string(), NOW).is_none());
    assert!(inner.ble.contains_key("5C:4D:3F:B5:41:B6"));
}

#[test]
fn a_battery_packet_fills_the_link_and_keeps_the_identity() {
    let mut inner = inner_with(vec![]);
    inner.ble.insert(
        "aa".to_string(),
        Entry { state: PodState { device_model: 0x2720, model_name: "AirPods Pro 3".to_string(), color: 3, ..Default::default() }, last_seen: NOW },
    );
    assert!(inner.add_link("aa", 5, NOW).is_some());
    assert!(inner.add_link("aa", 6, NOW).is_none(), "the first link stands");
    assert_eq!(inner.client_of("aa"), Some(5));

    let info = BatteryInfo {
        left: Some(Battery { component: Component::Left, level: Some(81), status: Status::Charging }),
        right: Some(Battery { component: Component::Right, level: Some(79), status: Status::Discharging }),
        case: None,
    };
    let snap = inner.handle_battery_info(&info, "aa", 5).unwrap();
    let s = snap.states.get("aa").unwrap();
    assert_eq!(s.source, DataSource::Aap);
    assert_eq!(s.left_battery, Some(81));
    assert!(s.left_charging);
    assert_eq!(s.right_battery, Some(79));
    assert!(!s.right_charging);
    assert_eq!(s.case_battery, None);
    assert_eq!(s.model_name, "AirPods Pro 3");
    assert_eq!(s.color, 3);
    assert_eq!(s.real_mac, "aa");
    assert!(s.identified);
}

#[test]
fn a_repeated_mode_report_changes_nothing() {
    let mut inner = inner_with(vec![]);
    inner.links.insert("aa".to_string(), link(Some(aap_state(80))));
    assert!(inner.handle_noise_mode(NoiseMode::Adaptive, "aa").is_some());
    assert!(inner.handle_noise_mode(NoiseMode::Adaptive, "aa").is_none());
    assert!(inner.record_noise_mode("aa", NoiseMode::Off).is_some());
    assert!(inner.record_noise_mode("zz", NoiseMode::Off).is_none());
    assert_eq!(inner.noise_modes.get("aa"), Some(&NoiseMode::Off));
}

#[test]
fn an_unchanged_key_is_not_stored_again() {
    let mut inner = inner_with(vec![]);
    assert!(inner.store_encryption_key("aa", &[1u8; 16]));
    assert!(!inner.store_encryption_key("aa", &[1u8; 16]));
    assert!(inner.store_encryption_key("aa", &[2u8; 16]));
    assert_eq!(inner.known_key_count(), 1);
}

#[test]
fn identical_names_are_not_broadcast() {
    let mut inner = inner_with(vec![]);
    let mut names = StrMap::new();
    names.insert("AA".to_string(), "Pods".to_string());
    let mut same = StrMap::new();
    same.insert("AA".to_string(), "Pods".to_string());
    assert!(inner.set_device_names(names).is_some());
    assert!(inner.set_device_names(same).is_none());
    assert!(inner.set_device_names(StrMap::new()).is_some());
}

#[test]
fn expiring_broadcasts_only_when_something_went() {
    let mut inner = inner_with(vec![("old", 200_000), ("new", 1_000)]);
    assert!(inner.expire(NOW).is_some());
    assert!(inner.expire(NOW).is_none());
    assert_eq!(inner.device_count(), 1);
}

#[test]
fn a_packet_is_read_for_batteries_modes_and_keys() {
    let mut inner = inner_with(vec![]);
    inner.links.insert("aa".to_string(), Link { client_id: 4, reading: None, since: NOW });

    let battery = vec![0x04, 0x00, 0x04, 0x00, 0x04, 0x00, 0x01, 0x04, 0x01, 77, 0x02, 0x01];
    let fx = inner.handle_packet(&battery, "aa", 4);
    assert_eq!(fx.battery.unwrap().states.get("aa").unwrap().left_battery, Some(77));
    assert!(fx.noise.is_none() && fx.new_key.is_none());

    let mode = [0x04, 0x00, 0x04, 0x00, 0x09, 0x00, 0x0D, 0x04, 0x00, 0x00, 0x00];
    let fx = inner.handle_packet(&mode, "aa", 4);
    assert_eq!(fx.noise.unwrap().states.get("aa").unwrap().noise_mode, Some(NoiseMode::Adaptive));
    assert!(inner.handle_packet(&mode, "aa", 4).noise.is_none(), "a repeated report changes nothing");

    let mut key = vec![0x04, 0x00, 0x04, 0x00, 0x31, 0x00, 0x01, 0x04, 0x00, 16, 0x00];
    key.extend([0x5Au8; 16]);
    let fx = inner.handle_packet(&key, "aa", 4);
    assert_eq!(fx.new_key, Some([0x5A; 16]));
    assert!(inner.handle_packet(&key, "aa", 4).new_key.is_none(), "the same key is not stored twice");

    let truncated = vec![0x04, 0x00, 0x04, 0x00, 0x04, 0x00, 0x02, 0x04, 0x01, 50, 0x02, 0x01, 0x02];
    let fx = inner.handle_packet(&truncated, "aa", 4);
    assert!(fx.battery.is_none());
    assert!(fx.battery_error.is_some());
}

#[test]
fn device_name_lookup_ignores_the_case_of_the_mac() {
    let mut names = StrMap::new();
    names.insert("AA:BB:CC:DD:EE:FF".to_string(), "Marcel's AirPods Pro".to_string());
    let snap = Snapshot { states: StrMap::new(), connected_macs: vec![], known_keys: vec![], device_names: names };
    assert_eq!(snap.device_name("AA:BB:CC:DD:EE:FF"), Some("Marcel's AirPods Pro"));
    assert_eq!(snap.device_name("aa:bb:cc:dd:ee:ff"), Some("Marcel's AirPods Pro"));
    assert_eq!(snap.device_name("Aa:bB:cC:Dd:eE:Ff"), Some("Marcel's AirPods Pro"));
    assert_eq!(snap.device_name("11:22:33:44:55:66"), None);
}
