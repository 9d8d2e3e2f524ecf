use aes::cipher::generic_array::GenericArray;
use aes::cipher::{BlockEncrypt, KeyInit};
use aes::Aes128;
use linuxpods::ble::decrypt::{
    decrypt_for_device, decrypt_proximity_payload, decrypt_raw, mac_suffix, matches_device, DecryptError,
};
use linuxpods::ble::parser::{
    decode_battery, decode_color, decode_connection_state, decode_model_name, parse_proximity_data, ParseError,
    PodSide, PROXIMITY_TYPE,
};
use linuxpods::ble::scanner::{advertisement_from, apple_manufacturer_data, mac_from_path};

/// Ciphertext for a chosen plaintext under a chosen key.
fn encrypt(plain: &[u8; 16], key: &[u8; 16]) -> [u8; 16] {
    let cipher = Aes128::new(GenericArray::from_slice(key));
    let mut block = *GenericArray::from_slice(plain);
    cipher.encrypt_block(&mut block);
    let mut out = [0u8; 16];
    out.copy_from_slice(block.as_slice());
    out
}

/// Layout observed on AirPods Pro 3: batteries at 1..4, MAC suffix at 7..10.
fn pro3_plaintext(mac_suffix: [u8; 3]) -> [u8; 16] {
    let mut p = [0u8; 16];
    p[0] = 0x10;
    p[1] = 0x80 | 62;
    p[2] = 0x80 | 62;
    p[3] = 0x80 | 31;
    p[4] = 0x1D;
    p[5] = 0x7D;
    p[6] = 0x64;
    p[7..10].copy_from_slice(&mac_suffix);
    p[12..16].copy_from_slice(&[0xA7, 0x8A, 0xB5, 0xCC]);
    p
}

#[test]
fn decrypt_rejects_wrong_lengths() {
    assert!(matches!(
        decrypt_for_device(&[0u8; 8], &[0u8; 16], "AA:BB:CC:DD:EE:FF"),
        Err(DecryptError::BadDataLen(8))
    ));
    assert!(matches!(
        decrypt_for_device(&[0u8; 16], &[0u8; 8], "AA:BB:CC:DD:EE:FF"),
        Err(DecryptError::BadKeyLen(8))
    ));
}

/// The earlier, magic-byte validated decryption.
#[test]
fn rejects_wrong_lengths() {
    assert!(matches!(decrypt_proximity_payload(&[0u8; 8], &[0u8; 16]), Err(DecryptError::BadDataLen(8))));
    assert!(matches!(decrypt_proximity_payload(&[0u8; 16], &[0u8; 8]), Err(DecryptError::BadKeyLen(8))));
}

#[test]
fn decrypt_rejects_garbage_from_wrong_key() {
    let err = decrypt_for_device(&[0xAB; 16], &[0xCD; 16], "AA:BB:CC:DD:EE:FF");
    assert!(matches!(err, Err(DecryptError::ValidationFailed)));
}

#[test]
fn rejects_garbage_from_wrong_key() {
    let err = decrypt_proximity_payload(&[0xAB; 16], &[0xCD; 16]);
    assert!(matches!(err, Err(DecryptError::ValidationFailed)));
}

#[test]
fn accepts_payload_that_decrypts_to_valid_magic() {
    let key = [0x11u8; 16];
    let mut plain = [0u8; 16];
    plain[0] = 0x03;
    plain[4] = 0x2D;
    plain[1] = 0x55;
    let ct = encrypt(&plain, &key);
    assert_eq!(decrypt_proximity_payload(&ct, &key).unwrap(), plain);
}

#[test]
fn accepts_pro3_layout_via_mac_suffix() {
    let key = [0x11u8; 16];
    let mac = "AA:BB:CC:DD:EE:FF";
    let plain = pro3_plaintext([0xDD, 0xEE, 0xFF]);
    let ct = encrypt(&plain, &key);
    assert_eq!(decrypt_for_device(&ct, &key, mac).unwrap(), plain);
}

#[test]
fn rejects_payload_belonging_to_another_device() {
    let key = [0x11u8; 16];
    let ct = encrypt(&pro3_plaintext([0xDD, 0xEE, 0xFF]), &key);
    assert!(matches!(decrypt_for_device(&ct, &key, "99:88:77:66:55:44"), Err(DecryptError::ValidationFailed)));
}

#[test]
fn parses_mac_suffix() {
    assert_eq!(mac_suffix("AA:BB:CC:DD:EE:FF"), Some([0xDD, 0xEE, 0xFF]));
    assert_eq!(mac_suffix("not-a-mac"), None);
    assert_eq!(mac_suffix("34:0E:22"), None);
}

#[test]
fn round_trips_gen2_layout() {
    let key = [0x33u8; 16];
    let mac = "11:22:33:44:55:66";
    let mut plain = pro3_plaintext([0x44, 0x55, 0x66]);
    plain[0] = 0x00;
    plain[1] = 0x80 | 100;
    plain[2] = 0x80 | 100;
    plain[3] = 0x80 | 14;
    let ct = encrypt(&plain, &key);
    assert_eq!(decrypt_for_device(&ct, &key, mac).unwrap(), plain);
}

#[test]
fn raw_decryption_inverts_encryption() {
    let key = [0x42u8; 16];
    let plain = [7u8; 16];
    let ct = encrypt(&plain, &key);
    assert_ne!(ct, plain);
    assert_eq!(decrypt_raw(&ct, &key).unwrap(), plain);
}

#[test]
fn a_zeroed_suffix_also_identifies_the_device() {
    let mut plain = [0u8; 16];
    plain[7..10].copy_from_slice(&[0, 0, 0]);
    assert!(matches_device(&plain, "AA:BB:CC:DD:EE:FF"));
    plain[8] = 1;
    assert!(!matches_device(&plain, "AA:BB:CC:DD:EE:FF"));
    assert!(!matches_device(&plain, "garbage"));
}

fn advert(status: u8, battery: u8, charging: u8) -> Vec<u8> {
    advert_with_lid(status, battery, charging, 0x51)
}

fn advert_with_lid(status: u8, battery: u8, charging: u8, lid: u8) -> Vec<u8> {
    let payload = vec![0x01, 0x27, 0x20, status, battery, charging, lid, 0x00, 0x05, 0x00];
    let mut v = vec![PROXIMITY_TYPE, payload.len() as u8];
    v.extend_from_slice(&payload);
    v
}

#[test]
fn parses_connection_state_from_byte_8() {
    let pd = parse_proximity_data(&advert(0x35, 0x76, 0xba)).unwrap();
    assert_eq!(pd.connection_state, 0x05);
    assert_eq!(decode_connection_state(pd.connection_state), "Music");
}

#[test]
fn lid_state_comes_from_byte_6() {
    for (lid, open) in [(0x52, true), (0x5A, false), (0x51, true), (0x59, false)] {
        let pd = parse_proximity_data(&advert_with_lid(0x35, 0x76, 0xba, lid)).unwrap();
        assert_eq!(pd.lid_open, Some(open), "lid byte {lid:#04x}");
    }
}

#[test]
fn lid_state_is_unknown_out_of_the_case() {
    let pd = parse_proximity_data(&advert_with_lid(0x0b, 0x76, 0x8f, 0x11)).unwrap();
    assert_eq!(pd.lid_open, None);
}

#[test]
fn rejects_malformed_input() {
    assert_eq!(parse_proximity_data(&[]), Err(ParseError::TooShort));
    assert_eq!(parse_proximity_data(&[0x01, 0x00]), Err(ParseError::NotProximity));
    assert_eq!(parse_proximity_data(&[0x07, 0x40]), Err(ParseError::Incomplete));
    assert_eq!(parse_proximity_data(&[0x07, 0x02, 0x00, 0x00]), Err(ParseError::PayloadTooShort));
}

#[test]
fn rejects_a_wrong_payload_prefix() {
    let mut v = advert(0x35, 0x76, 0xba);
    v[2] = 0x02;
    assert_eq!(parse_proximity_data(&v), Err(ParseError::InvalidPrefix));
}

#[test]
fn parses_unflipped_layout() {
    let pd = parse_proximity_data(&advert(0b0010_0000, 0x87, 0x00)).unwrap();
    assert!(!pd.is_flipped);
    assert_eq!(pd.primary_pod(), PodSide::Left);
    assert_eq!(pd.left_battery, Some(80));
    assert_eq!(pd.right_battery, Some(70));
    assert_eq!(pd.device_model, 0x2720);
    assert_eq!(decode_model_name(pd.device_model), "AirPods Pro 3");
    assert_eq!(pd.lid_open, Some(true));
}

#[test]
fn swaps_batteries_when_flipped() {
    let pd = parse_proximity_data(&advert(0b0000_0000, 0x87, 0x00)).unwrap();
    assert!(pd.is_flipped);
    assert_eq!(pd.primary_pod(), PodSide::Right);
    assert_eq!(pd.left_battery, Some(70));
    assert_eq!(pd.right_battery, Some(80));
}

#[test]
fn decodes_battery_nibbles() {
    assert_eq!(decode_battery(0x0), Some(0));
    assert_eq!(decode_battery(0x5), Some(50));
    assert_eq!(decode_battery(0x9), Some(90));
    assert_eq!(decode_battery(0xA), Some(100));
    assert_eq!(decode_battery(0xE), Some(100));
    assert_eq!(decode_battery(0xF), None);
}

#[test]
fn decrypted_data_overrides_coarse_levels() {
    let mut pd = parse_proximity_data(&advert(0b0010_0000, 0x87, 0x00)).unwrap();
    let mut dec = [0u8; 16];
    dec[4] = 0x2D;
    dec[1] = 0x80 | 63;
    dec[2] = 41;
    dec[3] = 77;
    pd.add_decrypted_data(&dec).unwrap();

    assert!(pd.has_decrypted);
    assert_eq!(pd.left_battery, Some(63));
    assert!(pd.left_charging);
    assert_eq!(pd.right_battery, Some(41));
    assert!(!pd.right_charging);
    assert_eq!(pd.case_battery, Some(77));
}

#[test]
fn decrypted_data_respects_flip() {
    let mut pd = parse_proximity_data(&advert(0b0000_0000, 0x87, 0x00)).unwrap();
    let mut dec = [0u8; 16];
    dec[4] = 0x2D;
    dec[1] = 63;
    dec[2] = 41;
    dec[3] = 77;
    pd.add_decrypted_data(&dec).unwrap();
    assert_eq!(pd.right_battery, Some(63));
    assert_eq!(pd.left_battery, Some(41));
}

#[test]
fn rejects_invalid_decrypted_levels() {
    let mut pd = parse_proximity_data(&advert(0b0010_0000, 0x87, 0x00)).unwrap();
    let mut dec = [0u8; 16];
    dec[4] = 0x2D;
    dec[1] = 127;
    pd.add_decrypted_data(&dec).unwrap();
    assert_eq!(pd.left_battery, None);
}

#[test]
fn rejects_wrong_decrypted_length() {
    let mut pd = parse_proximity_data(&advert(0b0010_0000, 0x87, 0x00)).unwrap();
    assert_eq!(pd.add_decrypted_data(&[0u8; 8]), Err(ParseError::BadDecryptedLen(8)));
}

#[test]
fn the_encrypted_portion_is_the_last_sixteen_bytes() {
    let mut payload = vec![0x01, 0x27, 0x20, 0x35, 0x76, 0xba, 0x51, 0x00, 0x05];
    payload.extend((1u8..=16).collect::<Vec<u8>>());
    payload.extend([0xEE, 0xFF]);
    let mut v = vec![PROXIMITY_TYPE, payload.len() as u8];
    v.extend_from_slice(&payload);
    let pd = parse_proximity_data(&v).unwrap();
    let enc = pd.encrypted_portion().unwrap();
    assert_eq!(enc.len(), 16);
    assert_eq!(enc[0], 3);
    assert_eq!(enc[15], 0xFF);

    let short = parse_proximity_data(&advert(0x35, 0x76, 0xba)).unwrap();
    assert!(short.encrypted_portion().is_none());
}

#[test]
fn names_colors_states_and_models() {
    assert_eq!(decode_model_name(0x2420), "AirPods Pro (2nd gen)");
    assert_eq!(decode_model_name(0x1234), "Unknown (0x1234)");
    assert_eq!(decode_connection_state(0x00), "Disconnected");
    assert_eq!(decode_color(0x00), "White");
}

#[test]
fn extracts_mac_from_device_path() {
    assert_eq!(mac_from_path("/org/bluez/hci0/dev_AA_BB_CC_DD_EE_FF").as_deref(), Some("AA:BB:CC:DD:EE:FF"));
}

#[test]
fn rejects_non_device_paths() {
    assert_eq!(mac_from_path("/org/bluez/hci0"), None);
    assert_eq!(mac_from_path("/org/bluez/hci0/dev_TOO_SHORT"), None);
    assert_eq!(mac_from_path(""), None);
}

#[test]
fn picks_the_apple_entry_of_the_manufacturer_data() {
    let entries = vec![(0x0006u16, vec![1u8, 2]), (0x004Cu16, vec![7u8, 8, 9])];
    assert_eq!(apple_manufacturer_data(&entries), Some(&vec![7u8, 8, 9]));
    assert_eq!(apple_manufacturer_data(&vec![(0x0006u16, vec![1u8])]), None);
}

#[test]
fn turns_a_device_property_change_into_an_advertisement() {
    let data = advert(0b0010_0000, 0x87, 0x00);
    let a = advertisement_from("/org/bluez/hci0/dev_11_22_33_44_55_66", "org.bluez.Device1", &data).unwrap();
    assert_eq!(a.ble_mac, "11:22:33:44:55:66");
    assert_eq!(a.data.left_battery, Some(80));
    assert!(advertisement_from("/org/bluez/hci0/dev_11_22_33_44_55_66", "org.bluez.Adapter1", &data).is_none());
    assert!(advertisement_from("/org/bluez/hci0", "org.bluez.Device1", &data).is_none());
    assert!(advertisement_from("/org/bluez/hci0/dev_11_22_33_44_55_66", "org.bluez.Device1", &[0x01, 0x00]).is_none());
}
