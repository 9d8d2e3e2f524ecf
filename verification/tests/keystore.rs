use linuxpods::keystore::{Keystore, KeystoreError};
use std::path::PathBuf;

fn store() -> Keystore {
    Keystore::with_dir(PathBuf::from("/nonexistent/linuxpods"))
}

#[test]
fn rejects_empty_key() {
    let mut ks = store();
    assert!(ks.set("AA:BB:CC:DD:EE:FF", &[]).is_err());
    assert_eq!(ks.set("AA:BB:CC:DD:EE:FF", &[]), Err(KeystoreError::EmptyKey));
    assert!(ks.list().is_empty());
}

#[test]
fn missing_file_loads_empty() {
    let mut ks = store();
    assert_eq!(ks.load_entries(&vec![]).unwrap().len(), 0);
    assert_eq!(ks.len(), 0);
}

/// What `save` writes is what `load` reads back.
#[test]
fn round_trips_through_disk() {
    let mut ks = store();
    let key = vec![1u8; 16];
    ks.set("AA:BB:CC:DD:EE:FF", &key).unwrap();
    let written = ks.encoded_entries();

    let mut reopened = store();
    let loaded = reopened.load_entries(&written).unwrap();
    assert_eq!(loaded.get("AA:BB:CC:DD:EE:FF"), Some(&key));
    assert_eq!(reopened.get("AA:BB:CC:DD:EE:FF"), Some(key));
}

#[test]
fn reads_go_written_format() {
    let mut ks = store();
    let entries = vec![("AA:BB:CC:DD:EE:FF".to_string(), "AQIDBAUGBwgJCgsMDQ4PEA==".to_string())];
    let loaded = ks.load_entries(&entries).unwrap();
    assert_eq!(loaded.get("AA:BB:CC:DD:EE:FF"), Some(&(1u8..=16).collect::<Vec<u8>>()));
}

#[test]
fn writes_standard_base64() {
    let mut ks = store();
    ks.set("AA:BB:CC:DD:EE:FF", &(1u8..=16).collect::<Vec<u8>>()).unwrap();
    let written = ks.encoded_entries();
    assert_eq!(written, vec![("AA:BB:CC:DD:EE:FF".to_string(), "AQIDBAUGBwgJCgsMDQ4PEA==".to_string())]);
}

#[test]
fn a_bad_entry_is_reported_and_changes_nothing() {
    let mut ks = store();
    ks.set("11:22:33:44:55:66", &[9u8; 16]).unwrap();
    let entries = vec![
        ("AA:BB:CC:DD:EE:FF".to_string(), "AQIDBAUGBwgJCgsMDQ4PEA==".to_string()),
        ("77:88:99:AA:BB:CC".to_string(), "not base64!".to_string()),
    ];
    assert_eq!(ks.load_entries(&entries).err(), Some(KeystoreError::BadKey("77:88:99:AA:BB:CC".to_string())));
    assert_eq!(ks.get("11:22:33:44:55:66"), Some(vec![9u8; 16]));
    assert!(ks.get("AA:BB:CC:DD:EE:FF").is_none());
}

#[test]
fn set_get_remove_list_clear() {
    let mut ks = store();
    ks.set("a", &[1]).unwrap();
    ks.set("b", &[2]).unwrap();
    ks.set("a", &[3]).unwrap();
    assert_eq!(ks.get("a"), Some(vec![3]));
    let mut listed = ks.list();
    listed.sort();
    assert_eq!(listed, vec!["a".to_string(), "b".to_string()]);
    assert_eq!(ks.all().len(), 2);
    ks.remove("a");
    assert!(ks.get("a").is_none());
    assert_eq!(ks.len(), 1);
    ks.clear();
    assert_eq!(ks.len(), 0);
    assert_eq!(ks.data_dir(), &PathBuf::from("/nonexistent/linuxpods"));
}

fn entries_of_json(text: &str) -> Vec<(String, String)> {
    let value: serde_json::Value = serde_json::from_str(text).unwrap();
    let keys = value.get("keys").unwrap().as_object().unwrap();
    keys.iter().map(|(mac, b64)| (mac.clone(), b64.as_str().unwrap().to_string())).collect()
}

fn json_of_entries(entries: &[(String, String)]) -> String {
    let mut keys = serde_json::Map::new();
    for (mac, b64) in entries {
        keys.insert(mac.clone(), serde_json::Value::String(b64.clone()));
    }
    let mut data = serde_json::Map::new();
    data.insert("version".to_string(), serde_json::Value::from(1));
    data.insert("keys".to_string(), serde_json::Value::Object(keys));
    serde_json::to_string_pretty(&serde_json::Value::Object(data)).unwrap()
}

#[test]
fn keys_saved_as_json_load_back_the_same() {
    let mut ks = store();
    ks.set("AA:BB:CC:DD:EE:FF", &(1u8..=16).collect::<Vec<u8>>()).unwrap();
    ks.set("11:22:33:44:55:66", &[7u8; 16]).unwrap();
    let text = json_of_entries(&ks.encoded_entries());

    let mut reopened = store();
    let loaded = reopened.load_entries(&entries_of_json(&text)).unwrap();
    assert_eq!(loaded.len(), 2);
    assert_eq!(reopened.get("AA:BB:CC:DD:EE:FF"), Some((1u8..=16).collect::<Vec<u8>>()));
    assert_eq!(reopened.get("11:22:33:44:55:66"), Some(vec![7u8; 16]));
}

#[test]
fn reads_the_documented_keys_file() {
    let text = "{\"version\":1,\"keys\":{\"AA:BB:CC:DD:EE:FF\":\"AQIDBAUGBwgJCgsMDQ4PEA==\"}}";
    let mut ks = store();
    let loaded = ks.load_entries(&entries_of_json(text)).unwrap();
    assert_eq!(loaded.get("AA:BB:CC:DD:EE:FF"), Some(&(1u8..=16).collect::<Vec<u8>>()));
}
