//! BlueZ integration: which devices are AirPods, what they are called, and
//! which property changes are connection events.
//!
//! The D-Bus side (the BatteryProvider1 object, the ObjectManager and the signal
//! streams) hands these functions the Device1 properties as plain values.
use vstd::prelude::*;
use crate::podstate::{Snapshot, lowest_of};
use crate::strmap::StrMap;
use crate::text::{contains_run, contains_str, copy_str, str_eq, to_uppercase, uppercase};

verus! {

/// The adapter whose devices are watched.
pub fn adapter_path() -> (r: &'static str)
    ensures
        r@ == "/org/bluez/hci0"@,
{
    "/org/bluez/hci0"
}

/// Where the battery provider and its ObjectManager are served.
pub fn provider_path() -> (r: &'static str)
    ensures
        r@ == "/com/github/mstroecker/linuxpods/battery"@,
{
    "/com/github/mstroecker/linuxpods/battery"
}

/// The battery object under the provider.
pub fn battery_object_path() -> (r: &'static str)
    ensures
        r@ == "/com/github/mstroecker/linuxpods/battery/airpods_battery"@,
{
    "/com/github/mstroecker/linuxpods/battery/airpods_battery"
}

/// The `Source` property of the battery object.
pub fn battery_source() -> (r: &'static str)
    ensures
        r@ == "LinuxPods"@,
{
    "LinuxPods"
}

/// The Device1 properties this program reads, as BlueZ reported them.
#[derive(Debug, Clone)]
pub struct DeviceProps {
    /// D-Bus object path of the device.
    pub path: String,
    pub alias: Option<String>,
    pub address: Option<String>,
    pub connected: Option<bool>,
}

/// A device connecting or disconnecting.
#[derive(Debug, Clone)]
pub struct ConnectionEvent {
    pub device_path: String,
    pub connected: bool,
}

/// An alias containing "AirPods" is how a device is recognised.
pub open spec fn alias_is_airpods(alias: Option<Seq<char>>) -> bool {
    match alias {
        Some(a) => contains_run(a, "AirPods"@),
        None => false,
    }
}

/// True when the device's alias contains "AirPods".
pub fn is_airpods(alias: Option<&str>) -> (r: bool)
    ensures
        r == alias_is_airpods(
            match alias {
                Some(a) => Some(a@),
                None => None,
            },
        ),
{
    match alias {
        Some(a) => contains_str(a, "AirPods"),
        None => false,
    }
}

/// The (uppercase address, alias) pair of a device: both must be present and
/// non-empty, since an address with no alias has no name to show and an alias
/// with no address cannot be matched to a device.
pub open spec fn name_entry_of(address: Option<Seq<char>>, alias: Option<Seq<char>>) -> Option<(Seq<char>, Seq<char>)> {
    match (address, alias) {
        (Some(ad), Some(al)) => if ad.len() > 0 && al.len() > 0 {
            Some((uppercase(ad), al))
        } else {
            None
        },
        _ => None,
    }
}

pub open spec fn opt_view(s: Option<&str>) -> Option<Seq<char>> {
    match s {
        Some(x) => Some(x@),
        None => None,
    }
}

/// Pulls the (uppercase MAC, alias) pair out of a device's properties.
pub fn device_name_entry(address: Option<&str>, alias: Option<&str>) -> (r: Option<(String, String)>)
    ensures
        match (r, name_entry_of(opt_view(address), opt_view(alias))) {
            (Some(p), Some(q)) => p.0@ == q.0 && p.1@ == q.1,
            (None, None) => true,
            _ => false,
        },
{
    let ad = match address {
        Some(a) => a,
        None => return None,
    };
    let al = match alias {
        Some(a) => a,
        None => return None,
    };
    if ad.unicode_len() == 0 || al.unicode_len() == 0 {
        return None;
    }
    Some((to_uppercase(ad), copy_str(al)))
}

pub open spec fn string_opt_view(s: Option<String>) -> Option<Seq<char>> {
    match s {
        Some(x) => Some(x@),
        None => None,
    }
}

/// A connected device whose alias names it AirPods.
pub open spec fn is_connected_airpods(d: DeviceProps) -> bool {
    alias_is_airpods(string_opt_view(d.alias)) && d.connected == Some(true)
}

/// The first connected AirPods among the devices, by object path.
pub fn find_connected_airpods(devices: &Vec<DeviceProps>) -> (r: Option<String>)
    ensures
        match r {
            Some(p) => exists|i: int|
                0 <= i < devices@.len() && is_connected_airpods(#[trigger] devices@[i]) && devices@[i].path@
                    == p@ && forall|j: int| 0 <= j < i ==> !is_connected_airpods(#[trigger] devices@[j]),
            None => forall|i: int| 0 <= i < devices@.len() ==> !is_connected_airpods(#[trigger] devices@[i]),
        },
{
    let mut i: usize = 0;
    while i < devices.len()
        invariant
            i <= devices@.len(),
            forall|j: int| 0 <= j < i ==> !is_connected_airpods(#[trigger] devices@[j]),
        decreases devices@.len() - i,
    {
        let d = &devices[i];
        let airpods = match &d.alias {
            Some(a) => is_airpods(Some(a.as_str())),
            None => is_airpods(None),
        };
        let connected = match d.connected {
            Some(c) => c,
            None => false,
        };
        if airpods && connected {
            assert(is_connected_airpods(devices@[i as int]));
            return Some(d.path.clone());
        }
        i = i + 1;
    }
    None
}

/// The names a list of devices gives: each device's name entry, a later device
/// overriding an earlier one with the same address.
pub open spec fn names_of(devices: Seq<DeviceProps>) -> Map<Seq<char>, Seq<char>>
    decreases devices.len(),
{
    if devices.len() == 0 {
        Map::empty()
    } else {
        let d = devices.last();
        let rest = names_of(devices.drop_last());
        match name_entry_of(string_opt_view(d.address), string_opt_view(d.alias)) {
            Some((mac, name)) => rest.insert(mac, name),
            None => rest,
        }
    }
}

/// Every device's alias keyed by uppercase MAC, for the devices that have both.
pub fn device_names(devices: &Vec<DeviceProps>) -> (r: StrMap<String>)
    ensures
        r@.map_values(|s: String| s@) == names_of(devices@),
{
    let mut names: StrMap<String> = StrMap::new();
    let mut i: usize = 0;
    while i < devices.len()
        invariant
            i <= devices@.len(),
            names@.map_values(|s: String| s@) == names_of(devices@.subrange(0, i as int)),
        decreases devices@.len() - i,
    {
        let d = &devices[i];
        let address = match &d.address {
            Some(a) => Some(a.as_str()),
            None => None,
        };
        let alias = match &d.alias {
            Some(a) => Some(a.as_str()),
            None => None,
        };
        let ghost before = names@;
        assert(devices@.subrange(0, i + 1).drop_last() =~= devices@.subrange(0, i as int));
        assert(opt_view(address) == string_opt_view(d.address));
        assert(opt_view(alias) == string_opt_view(d.alias));
        match device_name_entry(address, alias) {
            Some((mac, name)) => {
                let ghost k = mac@;
                let ghost v = name;
                names.insert(mac, name);
                assert(names@.map_values(|s: String| s@) =~= before.map_values(|s: String| s@).insert(k, v@));
            },
            None => {},
        }
        i = i + 1;
    }
    assert(devices@.subrange(0, i as int) =~= devices@);
    names
}

/// The event a PropertiesChanged signal carries, if it is a Device1 one with a
/// `Connected` property.
pub fn connection_event(device_path: &str, iface: &str, connected: Option<bool>) -> (r: Option<ConnectionEvent>)
    ensures
        r is Some <==> (iface@ == "org.bluez.Device1"@ && connected is Some),
        r matches Some(e) ==> e.device_path@ == device_path@ && Some(e.connected) == connected,
{
    if !str_eq(iface, "org.bluez.Device1") {
        return None;
    }
    match connected {
        Some(c) => Some(ConnectionEvent { device_path: copy_str(device_path), connected: c }),
        None => None,
    }
}

/// What the BlueZ task does about a connection event.
#[derive(Debug, Clone)]
pub enum AttachAction {
    /// AirPods connected at this object path: register a battery and open AAP.
    Attach(String),
    /// The AirPods with this MAC went away: close their link and battery.
    Detach(String),
    /// Not AirPods, or not attached.
    Ignore,
}

/// The level GNOME Settings shows in its Power panel for one device: the lowest
/// of its three levels (left, right, case), of those that are present.
pub open spec fn panel_level(s: crate::podstate::PodState) -> Option<u8> {
    lowest_of(lowest_of(s.left_battery, s.right_battery), s.case_battery)
}

/// The levels to mirror into BlueZ: for each attached device, in attachment
/// order, the lowest of the three levels it has; a device with none of the
/// three is left out.
pub open spec fn levels_of(macs: Seq<Seq<char>>, states: Map<Seq<char>, crate::podstate::PodState>) -> Seq<(Seq<char>, u8)>
    decreases macs.len(),
{
    if macs.len() == 0 {
        Seq::empty()
    } else {
        let rest = levels_of(macs.drop_last(), states);
        let m = macs.last();
        if states.contains_key(m) && panel_level(states[m]) is Some {
            rest.push((m, panel_level(states[m])->0))
        } else {
            rest
        }
    }
}

/// The lowest of the levels of `s` that are present, left, right and case.
fn lowest_of_three(s: &crate::podstate::PodState) -> (r: Option<u8>)
    ensures
        r == panel_level(*s),
{
    let earbuds = s.lowest_earbud();
    match (earbuds, s.case_battery) {
        (Some(e), Some(c)) => Some(if e <= c { e } else { c }),
        (Some(e), None) => Some(e),
        (None, Some(c)) => Some(c),
        (None, None) => None,
    }
}

/// The AirPods attached so far, by BlueZ object path, with their MAC. Kept rather
/// than looked up on disconnect, by when the device may be gone.
pub struct Attachments {
    pub attached: StrMap<String>,
}

impl Attachments {
    pub fn new() -> (r: Attachments)
        ensures
            r.attached@ == Map::<Seq<char>, String>::empty(),
    {
        Attachments { attached: StrMap::new() }
    }

    /// Records that the device at `device_path` (MAC `mac`) is attached.
    pub fn record(&mut self, device_path: &str, mac: &str)
        ensures
            final(self).attached@.dom() == old(self).attached@.dom().insert(device_path@),
            final(self).attached@[device_path@]@ == mac@,
            forall|p: Seq<char>| p != device_path@ && #[trigger] old(self).attached@.contains_key(p) ==> final(self).attached@[p] == old(self).attached@[p],
    {
        self.attached.insert(copy_str(device_path), copy_str(mac));
    }

    /// A connection of AirPods attaches them (only AirPods: not every Bluetooth
    /// device on the system); a disconnection of attached ones detaches them,
    /// and only them.
    pub fn on_connection_event(&mut self, event: &ConnectionEvent, alias: &str) -> (r: AttachAction)
        ensures
            event.connected && contains_run(alias@, "AirPods"@) ==> (r matches AttachAction::Attach(p) && p@ == event.device_path@) && *final(self) == *old(self),
            event.connected && !contains_run(alias@, "AirPods"@) ==> r is Ignore && *final(self) == *old(self),
            !event.connected && old(self).attached@.contains_key(event.device_path@) ==> (r matches AttachAction::Detach(m) && m == old(self).attached@[event.device_path@]) && final(self).attached@ == old(self).attached@.remove(event.device_path@),
            !event.connected && !old(self).attached@.contains_key(event.device_path@) ==> r is Ignore && final(self).attached@ == old(self).attached@,
    {
        if event.connected {
            if !contains_str(alias, "AirPods") {
                return AttachAction::Ignore;
            }
            return AttachAction::Attach(event.device_path.clone());
        }
        match self.attached.remove(event.device_path.as_str()) {
            Some(mac) => AttachAction::Detach(mac),
            None => AttachAction::Ignore,
        }
    }

    /// The battery levels to mirror into GNOME Settings, from whichever source
    /// has them.
    pub fn battery_levels(&self, snapshot: &Snapshot) -> (r: Vec<(String, u8)>)
        ensures
            r@.map_values(|e: (String, u8)| (e.0@, e.1)) == levels_of(
                self.attached.pairs().map_values(|p: (Seq<char>, String)| p.1@),
                snapshot.states@,
            ),
    {
        let n = self.attached.len();
        let ghost macs = self.attached.pairs().map_values(|p: (Seq<char>, String)| p.1@);
        let mut out: Vec<(String, u8)> = Vec::new();
        let mut i: usize = 0;
        assert(macs.subrange(0, 0) =~= Seq::<Seq<char>>::empty());
        assert(out@.map_values(|e: (String, u8)| (e.0@, e.1)) =~= Seq::<(Seq<char>, u8)>::empty());
        while i < n
            invariant
                n == self.attached.pairs().len(),
                macs == self.attached.pairs().map_values(|p: (Seq<char>, String)| p.1@),
                i <= n,
                out@.map_values(|e: (String, u8)| (e.0@, e.1)) == levels_of(macs.subrange(0, i as int), snapshot.states@),
            decreases n - i,
        {
            let mac = self.attached.value_at(i);
            assert(macs.subrange(0, i + 1).drop_last() =~= macs.subrange(0, i as int));
            assert(macs.subrange(0, i + 1).last() == mac@);
            let ghost before = out@;
            match snapshot.states.get(mac.as_str()) {
                Some(s) => match lowest_of_three(s) {
                    Some(level) => {
                        out.push((mac.clone(), level));
                        assert(out@.map_values(|e: (String, u8)| (e.0@, e.1)) =~= before.map_values(
                            |e: (String, u8)| (e.0@, e.1),
                        ).push((mac@, level)));
                    },
                    None => {},
                },
                None => {},
            }
            i = i + 1;
        }
        assert(macs.subrange(0, n as int) =~= macs);
        out
    }
}

/// The level mirrored into the Power panel is the lowest of the device's three:
/// no higher than any of the left, right and case levels that are present, and
/// equal to one of them; a device has one exactly when at least one of the
/// three is present.
pub proof fn lemma_panel_level_is_the_lowest_of_three(s: crate::podstate::PodState)
    ensures
        panel_level(s) is None <==> (s.left_battery is None && s.right_battery is None && s.case_battery is None),
        match panel_level(s) {
            Some(v) => {
                &&& (match s.left_battery {
                    Some(l) => v <= l,
                    None => true,
                })
                &&& (match s.right_battery {
                    Some(r) => v <= r,
                    None => true,
                })
                &&& (match s.case_battery {
                    Some(c) => v <= c,
                    None => true,
                })
                &&& (s.left_battery == Some(v) || s.right_battery == Some(v) || s.case_battery == Some(v))
            },
            None => true,
        },
{
}

/// Every level mirrored into BlueZ belongs to an attached device that has a
/// state, and is that device's Power panel level.
pub proof fn lemma_mirrored_levels_are_panel_levels(
    macs: Seq<Seq<char>>,
    states: Map<Seq<char>, crate::podstate::PodState>,
    i: int,
)
    requires
        0 <= i < levels_of(macs, states).len(),
    ensures
        macs.contains(levels_of(macs, states)[i].0),
        states.contains_key(levels_of(macs, states)[i].0),
        panel_level(states[levels_of(macs, states)[i].0]) == Some(levels_of(macs, states)[i].1),
    decreases macs.len(),
{
    let rest = levels_of(macs.drop_last(), states);
    if i < rest.len() {
        lemma_mirrored_levels_are_panel_levels(macs.drop_last(), states, i);
        assert(macs.drop_last().contains(rest[i].0));
        let k = choose|k: int| 0 <= k < macs.drop_last().len() && macs.drop_last()[k] == rest[i].0;
        assert(macs[k] == rest[i].0);
    } else {
        assert(macs[macs.len() - 1] == macs.last());
    }
}

} // verus!
