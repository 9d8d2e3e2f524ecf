use linuxpods::aap::battery::{is_battery_packet, parse_battery_packet, BatteryInfo, BatteryParseError, Component, Status};
use linuxpods::aap::client::{
    after_connect_attempt, send_complete, ConnectOutcome, ConnectStep, CONNECT_ATTEMPTS, PACKET_BATTERY_REQUEST,
    PACKET_ENABLE_FEATURES, PACKET_HANDSHAKE, PACKET_KEY_REQUEST,
};
use linuxpods::aap::keys::{
    find_encryption_key, find_irk, is_key_packet, parse_proximity_keys, KeyParseError, KeyType, KEY_MARKER,
};
use linuxpods::aap::noise::{
    allow_off_packet, is_noise_mode_packet, needs_allow_off, parse_noise_mode_packet, set_packet, NoiseMode,
    NoiseParseError, MODE,
};

fn battery_packet(entries: &[(u8, u8, u8)]) -> Vec<u8> {
    let mut p = vec![0x04, 0x00, 0x04, 0x00, 0x04, 0x00, entries.len() as u8];
    for (component, level, status) in entries {
        p.extend_from_slice(&[*component, 0x01, *level, *status, 0x01]);
    }
    p
}

#[test]
fn rejects_non_battery_packets() {
    assert!(!is_battery_packet(&[0x04, 0x00]));
    assert!(!is_battery_packet(&[0x04, 0x00, 0x04, 0x00, 0x31, 0x00, 0x01]));
    assert_eq!(parse_battery_packet(&[0x00; 7]), Err(BatteryParseError::NotBatteryPacket));
}

#[test]
fn parses_all_three_components() {
    // 4 = left, 2 = right, 8 = case; status 1 = charging, 2 = discharging
    let p = battery_packet(&[(4, 80, 2), (2, 75, 1), (8, 42, 2)]);
    let info = parse_battery_packet(&p).unwrap();

    let left = info.left.unwrap();
    assert_eq!(left.level, Some(80));
    assert_eq!(left.status, Status::Discharging);
    assert!(!left.is_charging());

    let right = info.right.unwrap();
    assert_eq!(right.level, Some(75));
    assert!(right.is_charging());

    assert_eq!(info.case.unwrap().level, Some(42));
}

#[test]
fn treats_levels_above_100_as_unknown() {
    let info = parse_battery_packet(&battery_packet(&[(4, 100, 2), (2, 101, 1), (8, 255, 2)])).unwrap();
    assert_eq!(info.left.unwrap().level, Some(100));
    let right = info.right.unwrap();
    assert_eq!(right.level, None);
    assert!(right.is_charging());
    assert_eq!(info.case.unwrap().level, None);
}

#[test]
fn tolerates_missing_components() {
    let info = parse_battery_packet(&battery_packet(&[(4, 80, 2)])).unwrap();
    assert!(info.left.is_some());
    assert!(info.right.is_none());
    assert!(info.case.is_none());
}

#[test]
fn detects_truncated_entries() {
    let mut p = battery_packet(&[(4, 80, 2), (2, 75, 1)]);
    p.truncate(p.len() - 3); // cut into the second entry
    assert_eq!(parse_battery_packet(&p), Err(BatteryParseError::Incomplete(12)));
}

#[test]
fn ignores_unknown_components() {
    let info = parse_battery_packet(&battery_packet(&[(99, 50, 2)])).unwrap();
    assert_eq!(info, BatteryInfo::default());
}

#[test]
fn components_and_statuses_have_names() {
    assert_eq!(Component::from(0x04), Component::Left);
    assert_eq!(Component::from(0x02).name(), "Right");
    assert_eq!(Component::from(0x77).name(), "Unknown");
    assert_eq!(Status::from(0x01).name(), "Charging");
    assert_eq!(Status::from(0x04).name(), "Disconnected");
}

#[test]
fn a_later_entry_for_a_component_replaces_an_earlier_one() {
    let info = parse_battery_packet(&battery_packet(&[(4, 10, 2), (4, 90, 1)])).unwrap();
    let left = info.left.unwrap();
    assert_eq!(left.level, Some(90));
    assert!(left.is_charging());
}

fn key_packet(keys: &[(u8, &[u8])]) -> Vec<u8> {
    let mut p = vec![0x04, 0x00, 0x04, 0x00, KEY_MARKER, 0x00, keys.len() as u8];
    for (t, data) in keys {
        p.extend_from_slice(&[*t, 0x00, data.len() as u8, 0x00]);
        p.extend_from_slice(data);
    }
    p
}

#[test]
fn detects_key_packets() {
    assert!(is_key_packet(&key_packet(&[(0x04, &[0u8; 16])])));
    assert!(!is_key_packet(&[0x04, 0x00, 0x04, 0x00, 0x04, 0x00, 0x01]));
    assert!(!is_key_packet(&[0x04; 3]));
    // The marker alone is not enough; the header has to match too.
    assert!(!is_key_packet(&[0x05, 0x00, 0x04, 0x00, KEY_MARKER, 0x00, 0x01]));
}

#[test]
fn extracts_irk_and_enc_key() {
    let irk = [0xAAu8; 16];
    let enc = [0xBBu8; 16];
    let keys = parse_proximity_keys(&key_packet(&[(0x01, &irk), (0x04, &enc)])).unwrap();

    assert_eq!(keys.len(), 2);
    assert_eq!(keys[0].key_type, KeyType::Irk);
    assert_eq!(keys[1].key_type, KeyType::EncKey);
    assert_eq!(find_encryption_key(&keys), Ok(enc));
    assert_eq!(find_irk(&keys), Some(&irk[..]));
}

#[test]
fn reports_a_missing_enc_key() {
    let keys = parse_proximity_keys(&key_packet(&[(0x01, &[0xAAu8; 16])])).unwrap();
    assert_eq!(find_encryption_key(&keys), Err(KeyParseError::NoEncryptionKey));
}

#[test]
fn rejects_an_enc_key_of_the_wrong_length() {
    for len in [0, 15, 17, 32] {
        let data = vec![0xBB; len];
        let keys = parse_proximity_keys(&key_packet(&[(0x04, data.as_slice())])).unwrap();
        assert_eq!(find_encryption_key(&keys), Err(KeyParseError::BadEncryptionKeyLen(len)));
    }
}

#[test]
fn rejects_malformed_packets() {
    assert_eq!(parse_proximity_keys(&[0u8; 3]), Err(KeyParseError::TooShort(3)));
    assert_eq!(
        parse_proximity_keys(&[0x04, 0x00, 0x04, 0x00, 0x99, 0x00, 0x01]),
        Err(KeyParseError::NotKeyPacket)
    );
    assert_eq!(
        parse_proximity_keys(&[0x04, 0x00, 0x04, 0x00, KEY_MARKER, 0x00, 0x00]),
        Err(KeyParseError::NoKeys)
    );
    assert_eq!(
        parse_proximity_keys(&[0x04, 0x00, 0x04, 0x00, KEY_MARKER, 0x00, 99]),
        Err(KeyParseError::SuspiciousCount(99))
    );
}

#[test]
fn detects_truncated_key_data() {
    let mut p = key_packet(&[(0x04, &[0xBBu8; 16])]);
    p.truncate(p.len() - 4);
    assert_eq!(parse_proximity_keys(&p), Err(KeyParseError::TruncatedData(1)));
}

#[test]
fn detects_a_truncated_key_header() {
    let p = vec![0x04, 0x00, 0x04, 0x00, KEY_MARKER, 0x00, 0x01, 0x04, 0x00, 0x10];
    assert_eq!(parse_proximity_keys(&p), Err(KeyParseError::TruncatedHeader(1)));
}

#[test]
fn key_types_have_names() {
    assert_eq!(KeyType::from(0x01), KeyType::Irk);
    assert_eq!(KeyType::Irk.name(), "IRK (Identity Resolving Key)");
    assert_eq!(KeyType::EncKey.name(), "ENC_KEY (Encryption Key)");
    assert_eq!(KeyType::from(0x7f).name(), "UNKNOWN (0x7F)");
}

fn hex(p: [u8; 11]) -> String {
    p.iter().map(|b| format!("{b:02x}")).collect::<Vec<_>>().join("")
}

#[test]
fn builds_the_documented_packets() {
    assert_eq!(hex(set_packet(NoiseMode::Off)), "0400040009000d01000000");
    assert_eq!(hex(set_packet(NoiseMode::NoiseCancelling)), "0400040009000d02000000");
    assert_eq!(hex(set_packet(NoiseMode::Transparency)), "0400040009000d03000000");
    assert_eq!(hex(set_packet(NoiseMode::Adaptive)), "0400040009000d04000000");
}

#[test]
fn builds_the_allow_off_packets() {
    assert_eq!(allow_off_packet(true), [0x04, 0x00, 0x04, 0x00, 0x09, 0x00, 0x34, 0x01, 0x00, 0x00, 0x00]);
    assert_eq!(allow_off_packet(false), [0x04, 0x00, 0x04, 0x00, 0x09, 0x00, 0x34, 0x02, 0x00, 0x00, 0x00]);
}

#[test]
fn allow_off_is_not_a_mode_report() {
    assert!(!is_noise_mode_packet(&allow_off_packet(true)));
}

#[test]
fn round_trips_every_mode() {
    for mode in NoiseMode::ALL {
        let packet = set_packet(mode);
        assert!(is_noise_mode_packet(&packet));
        assert_eq!(parse_noise_mode_packet(&packet), Ok(mode));
        assert_eq!(NoiseMode::from_byte(mode.as_byte()), Some(mode));
    }
}

#[test]
fn rejects_other_settings_sub_commands() {
    let other = [0x04, 0x00, 0x04, 0x00, 0x09, 0x00, 0x1F, 0x50, 0x50];
    assert!(!is_noise_mode_packet(&other));
    assert_eq!(parse_noise_mode_packet(&other), Err(NoiseParseError::NotNoiseControlPacket));
}

#[test]
fn rejects_the_settings_changed_notification() {
    let ack = [0x04, 0x00, 0x04, 0x00, 0x4B, 0x00, 0x02, 0x00, 0x01, 0x09];
    assert!(!is_noise_mode_packet(&ack));
}

#[test]
fn rejects_truncated_packets() {
    let full = set_packet(NoiseMode::Adaptive);
    for len in 0..=MODE {
        assert!(!is_noise_mode_packet(&full[..len]), "accepted {len} bytes");
    }
    assert!(is_noise_mode_packet(&full[..=MODE]));
}

#[test]
fn rejects_unknown_mode_bytes() {
    let mut packet = set_packet(NoiseMode::Off);
    packet[MODE] = 0x05;
    assert_eq!(parse_noise_mode_packet(&packet), Err(NoiseParseError::UnknownMode(0x05)));
}

#[test]
fn lists_every_mode_once() {
    for mode in NoiseMode::ALL {
        assert_eq!(NoiseMode::ALL.iter().filter(|m| **m == mode).count(), 1, "{mode:?} listed more than once");
    }
}

#[test]
fn modes_have_labels_and_descriptions() {
    assert_eq!(NoiseMode::NoiseCancelling.label(), "Noise Cancelling");
    assert_eq!(NoiseMode::Adaptive.description(), "Automatically adjusts to your environment");
    assert_eq!(NoiseMode::from_byte(0x00), None);
    assert_eq!(NoiseMode::Transparency.as_byte(), 0x03);
}

#[test]
fn only_off_needs_to_be_allowed_first() {
    assert!(needs_allow_off(NoiseMode::Off));
    assert!(!needs_allow_off(NoiseMode::Adaptive));
    assert!(!needs_allow_off(NoiseMode::NoiseCancelling));
}

#[test]
fn client_packets_are_the_documented_bytes() {
    assert_eq!(PACKET_HANDSHAKE[..8], [0x00, 0x00, 0x04, 0x00, 0x01, 0x00, 0x02, 0x00]);
    assert_eq!(PACKET_BATTERY_REQUEST, [0x04, 0x00, 0x04, 0x00, 0x0F, 0x00, 0xFF, 0xFF, 0xFF, 0xFF]);
    assert_eq!(PACKET_ENABLE_FEATURES[4], 0x4D);
    assert_eq!(PACKET_KEY_REQUEST, [0x04, 0x00, 0x04, 0x00, 0x30, 0x00, 0x05, 0x00]);
}

#[test]
fn connect_retries_until_the_last_attempt() {
    assert_eq!(after_connect_attempt(1, ConnectOutcome::Established), ConnectStep::Done);
    assert_eq!(after_connect_attempt(1, ConnectOutcome::NoChannel), ConnectStep::Retry);
    assert_eq!(after_connect_attempt(5, ConnectOutcome::Failed), ConnectStep::Retry);
    assert_eq!(after_connect_attempt(CONNECT_ATTEMPTS, ConnectOutcome::NoChannel), ConnectStep::GiveUp);
    assert_eq!(after_connect_attempt(CONNECT_ATTEMPTS, ConnectOutcome::Established), ConnectStep::Done);
    assert!(send_complete(10, 10));
    assert!(!send_complete(9, 10));
}

#[test]
fn a_packet_built_from_keys_parses_back_to_them() {
    let irk: Vec<u8> = vec![9, 8, 7];
    let enc: Vec<u8> = (1u8..=16).collect();
    let other: Vec<u8> = vec![];
    let mut packet = vec![0x04, 0x00, 0x04, 0x00, KEY_MARKER, 0x77, 3];
    packet.extend_from_slice(&[0x01, 0xAA, 3, 0xBB]);
    packet.extend_from_slice(&irk);
    packet.extend_from_slice(&[0x04, 0x00, 16, 0x00]);
    packet.extend_from_slice(&enc);
    packet.extend_from_slice(&[0x09, 0x11, 0, 0x22]);
    packet.extend_from_slice(&[0xFF, 0xFE]);
    let keys = parse_proximity_keys(&packet).unwrap();
    assert_eq!(keys.len(), 3);
    assert_eq!((keys[0].key_type, keys[0].data.clone()), (KeyType::Irk, irk));
    assert_eq!((keys[1].key_type, keys[1].data.clone()), (KeyType::EncKey, enc));
    assert_eq!((keys[2].key_type, keys[2].data.clone()), (KeyType::Unknown(0x09), other));
}
