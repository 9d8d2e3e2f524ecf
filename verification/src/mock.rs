//! A stand-in for the coordinator, for exercising the interface without
//! hardware: one connected pair that drains and recharges over AAP, and a second
//! pair that shows up over BLE, without a key, after a few ticks.
use vstd::prelude::*;
use crate::ble::parser::PodSide;
use crate::podstate::{DataSource, PodState, Snapshot};
use crate::strmap::StrMap;
use crate::text::push_char;

verus! {

/// The connected pair.
pub open spec fn mock_mac_a() -> Seq<char> {
    "AA:BB:CC:DD:EE:FF"@
}

/// The pair that appears later.
pub open spec fn mock_mac_b() -> Seq<char> {
    "11:22:33:44:55:66"@
}

/// The connected pair's level at `tick`: it drains 3% a tick, then recharges.
pub open spec fn mock_level(tick: u32) -> u8 {
    (100 - (tick * 3) % 100) as u8
}

/// `a - b`, or zero.
pub open spec fn sat_sub(a: u8, b: u8) -> u8 {
    if a >= b {
        (a - b) as u8
    } else {
        0
    }
}

/// The connected pair's rotating BLE address at `tick`.
pub open spec fn mock_ble_mac(tick: u32) -> Seq<char> {
    let d = (48 + tick % 10) as char;
    seq!['5', d] + ":00:00:00:00:0"@ + seq![d]
}

/// The connected pair at `tick`.
pub open spec fn is_mock_connected(s: PodState, tick: u32) -> bool {
    &&& s.source == DataSource::Aap
    &&& s.left_battery == Some(mock_level(tick))
    &&& s.right_battery == Some(sat_sub(mock_level(tick), 4))
    &&& s.case_battery == Some(sat_sub(mock_level(tick), 11))
    &&& s.left_charging == (tick % 4 == 0) && s.right_charging == (tick % 4 == 0) && !s.case_charging
    &&& s.left_in_ear == (tick % 3 != 0) && s.right_in_ear == (tick % 5 != 0)
    &&& s.lid_open == Some(tick % 6 < 3)
    &&& s.device_model == 0x2014 && s.model_name@ == "AirPods Pro 3"@
    &&& s.real_mac@ == mock_mac_a() && s.current_ble_mac@ == mock_ble_mac(tick)
    &&& s.identified && s.noise_mode is None && s.connection_state is None && s.last_seen is None
}

/// The second pair: BLE only, no key yet.
pub open spec fn is_mock_stranger(s: PodState) -> bool {
    &&& s.source == DataSource::Ble
    &&& s.left_battery == Some(55u8) && s.right_battery == Some(60u8) && s.case_battery is None
    &&& !s.left_charging && !s.right_charging && !s.case_charging
    &&& s.device_model == 0x2014 && s.model_name@ == "AirPods Pro 2"@
    &&& s.real_mac@ == mock_mac_b() && s.current_ble_mac@ == "7A:11:22:33:44:55"@
    &&& !s.identified && s.last_seen is None
}

fn connected_state(tick: u32) -> (s: PodState)
    requires
        tick <= u32::MAX / 3,
    ensures
        is_mock_connected(s, tick),
{
    let level: u8 = (100 - (tick * 3) % 100) as u8;
    let d: u8 = (tick % 10) as u8;
    let digit: char = (48 + d) as char;
    let mut ble = String::new();
    push_char(&mut ble, '5');
    push_char(&mut ble, digit);
    ble.append(":00:00:00:00:0");
    push_char(&mut ble, digit);
    assert(ble@ =~= mock_ble_mac(tick));
    PodState {
        source: DataSource::Aap,
        left_battery: Some(level),
        right_battery: Some(if level >= 4 { level - 4 } else { 0 }),
        case_battery: Some(if level >= 11 { level - 11 } else { 0 }),
        left_charging: tick % 4 == 0,
        right_charging: tick % 4 == 0,
        case_charging: false,
        left_in_ear: tick % 3 != 0,
        right_in_ear: tick % 5 != 0,
        lid_open: Some(tick % 6 < 3),
        connection_state: None,
        noise_mode: None,
        device_model: 0x2014,
        model_name: String::from_str("AirPods Pro 3"),
        color: 0,
        primary_pod: PodSide::Unknown,
        real_mac: String::from_str("AA:BB:CC:DD:EE:FF"),
        current_ble_mac: ble,
        identified: true,
        last_seen: None,
    }
}

fn stranger_state() -> (s: PodState)
    ensures
        is_mock_stranger(s),
{
    PodState {
        source: DataSource::Ble,
        left_battery: Some(55),
        right_battery: Some(60),
        case_battery: None,
        left_charging: false,
        right_charging: false,
        case_charging: false,
        left_in_ear: false,
        right_in_ear: false,
        lid_open: None,
        connection_state: None,
        noise_mode: None,
        device_model: 0x2014,
        model_name: String::from_str("AirPods Pro 2"),
        color: 0,
        primary_pod: PodSide::Unknown,
        real_mac: String::from_str("11:22:33:44:55:66"),
        current_ble_mac: String::from_str("7A:11:22:33:44:55"),
        identified: false,
        last_seen: None,
    }
}

/// What the stand-in reports at tick `tick`: the connected pair always, on AAP
/// and with a key; the second pair from the fourth tick on.
pub fn mock_snapshot(tick: u32) -> (r: Snapshot)
    requires
        tick <= u32::MAX / 3,
    ensures
        r.states@.contains_key(mock_mac_a()),
        is_mock_connected(r.states@[mock_mac_a()], tick),
        r.states@.contains_key(mock_mac_b()) == (tick > 3),
        tick > 3 ==> is_mock_stranger(r.states@[mock_mac_b()]),
        r.states@.len() == (if tick > 3 { 2nat } else { 1nat }),
        r.connected_macs@.len() == 1 && r.connected_macs@[0]@ == mock_mac_a(),
        r.known_keys@.len() == 1 && r.known_keys@[0]@ == mock_mac_a(),
        r.device_names@ == Map::<Seq<char>, String>::empty(),
{
    proof {
        reveal_strlit("AA:BB:CC:DD:EE:FF");
        reveal_strlit("11:22:33:44:55:66");
    }
    let mut states: StrMap<PodState> = StrMap::new();
    states.insert(String::from_str("AA:BB:CC:DD:EE:FF"), connected_state(tick));
    assert(mock_mac_a() != mock_mac_b()) by {
        assert(mock_mac_a()[0] != mock_mac_b()[0]);
    }
    if tick > 3 {
        states.insert(String::from_str("11:22:33:44:55:66"), stranger_state());
    }
    // The map's size follows from its entries, which `len` relates.
    let _ = states.len();
    Snapshot {
        states,
        connected_macs: vec![String::from_str("AA:BB:CC:DD:EE:FF")],
        known_keys: vec![String::from_str("AA:BB:CC:DD:EE:FF")],
        device_names: StrMap::new(),
    }
}

} // verus!
