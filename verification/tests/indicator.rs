use linuxpods::aap::noise::NoiseMode;
use linuxpods::indicator::{battery_label, Indicator, MenuEntry, TrayActions, TrayCommand};
use linuxpods::podstate::{DataSource, PodState, Snapshot};
use linuxpods::strmap::StrMap;
use std::sync::Arc;

struct Nothing;

impl TrayActions for Nothing {
    fn show_window(&self) {}
    fn quit(&self) {}
    fn set_noise_mode(&self, _mode: NoiseMode) {}
}

#[test]
fn formats_battery_labels() {
    assert_eq!(battery_label("Left", Some(80), false), "  Left : 80%");
    assert_eq!(battery_label("Right", Some(75), true), "  Right: 75% ⚡");
    assert_eq!(battery_label("Case", None, false), "  Case : --");
}

#[test]
fn long_names_are_not_cut() {
    assert_eq!(battery_label("Headset", Some(5), false), "  Headset: 5%");
}

#[test]
fn a_new_tray_searches() {
    let tray = Indicator::new(Arc::new(Nothing));
    assert_eq!(tray.tool_tip_description(), "Searching for AirPods...");
    assert!(!tray.on_aap);
}

#[test]
fn the_tooltip_shows_the_lower_earbud() {
    let mut tray = Indicator::new(Arc::new(Nothing));
    tray.left = Some(80);
    tray.right = Some(60);
    assert_eq!(tray.tool_tip_description(), "AirPods - 60%");
    tray.left = None;
    assert_eq!(tray.tool_tip_description(), "AirPods - 60%");
}

#[test]
fn the_menu_lists_levels_modes_and_commands() {
    let mut tray = Indicator::new(Arc::new(Nothing));
    tray.left = Some(80);
    tray.noise_mode = Some(NoiseMode::Adaptive);
    tray.on_aap = true;
    let menu = tray.menu();
    assert_eq!(menu.len(), 14);
    assert!(matches!(&menu[0], MenuEntry::Label(l) if l == "Battery Levels"));
    assert!(matches!(&menu[2], MenuEntry::Label(l) if l == "  Left : 80%"));
    assert!(matches!(&menu[3], MenuEntry::Label(l) if l == "  Right: --"));
    assert!(matches!(&menu[7], MenuEntry::Mode { mode: NoiseMode::Transparency, checked: false, enabled: true, .. }));
    assert!(matches!(&menu[8], MenuEntry::Mode { mode: NoiseMode::Adaptive, checked: true, .. }));
    assert!(matches!(&menu[10], MenuEntry::Mode { mode: NoiseMode::Off, label, .. } if label == "Off"));
    assert!(matches!(&menu[11], MenuEntry::Separator));
    assert!(matches!(&menu[12], MenuEntry::Command { command: TrayCommand::ShowWindow, .. }));
    assert!(matches!(&menu[13], MenuEntry::Command { label, command: TrayCommand::Quit } if label == "Quit"));
}

#[test]
fn the_tray_follows_the_primary_device() {
    let mut tray = Indicator::new(Arc::new(Nothing));
    let mut states = StrMap::new();
    states.insert(
        "aa".to_string(),
        PodState { source: DataSource::Aap, left_battery: Some(42), identified: true, noise_mode: Some(NoiseMode::Off), ..Default::default() },
    );
    let snap = Snapshot { states, connected_macs: vec!["aa".to_string()], known_keys: vec![], device_names: StrMap::new() };
    assert!(tray.apply_snapshot(&snap));
    assert_eq!(tray.left, Some(42));
    assert!(tray.on_aap);
    assert_eq!(tray.noise_mode, Some(NoiseMode::Off));

    let empty = Snapshot::default();
    assert!(!tray.apply_snapshot(&empty));
    assert_eq!(tray.left, Some(42), "without a primary the tray keeps what it shows");
}
