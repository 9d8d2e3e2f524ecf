//! Centralized AirPods state coordination.
//!
//! Two data sources feed it:
//!   - AAP (exact) for every device an L2CAP connection is up to - several at once
//!   - BLE advertisements for every other device (10% steps, or exact once decrypted)
//!
//! The choice is per device, not global: an AAP connection to one pair of AirPods
//! does not stop a second pair from being tracked over BLE.
//!
//! The last advertisement of every device is kept, including the connected
//! device's own advertisements while AAP supersedes them, so that when the link
//! drops the cached reading takes over at once. AAP state is only ever the live
//! link's and goes with it. Cached advertisements expire: identified devices after
//! [`BLE_CACHE_TTL`], the rest (keyed by rotating random MACs) after [`DEVICE_TTL`].
//!
//! Times are milliseconds on a monotonic clock.
pub mod inner;

use vstd::prelude::*;
use crate::aap::noise::NoiseMode;
use crate::ble::parser::PodSide;
use crate::strmap::{StrMap, distinct_keys, has_key, lemma_map_of, lists_mac};
use crate::text::{ascii_lower, ascii_upper, is_ascii_text, str_eq, to_uppercase, uppercase};

verus! {

/// How long an unidentified device may go unseen before its state is dropped, in
/// milliseconds. Bounds the map against rotating BLE MACs.
pub const DEVICE_TTL: u64 = 120_000;

/// How long the last advertisement of an identified device stays on show, in
/// milliseconds. Keyed by the real MAC, these do not rotate.
pub const BLE_CACHE_TTL: u64 = 1_800_000;

#[derive(Debug, Clone, Copy, PartialEq, Eq, Structural)]
pub enum DataSource {
    Unknown,
    Ble,
    Aap,
}

impl Default for DataSource {
    fn default() -> (r: Self)
        ensures
            r == DataSource::Unknown,
    {
        DataSource::Unknown
    }
}

impl DataSource {
    /// The name shown for the source.
    pub fn name(&self) -> (r: &'static str)
        ensures
            r@ == (match *self {
                DataSource::Ble => "BLE"@,
                DataSource::Aap => "AAP"@,
                DataSource::Unknown => "Unknown"@,
            }),
    {
        match self {
            DataSource::Ble => "BLE",
            DataSource::Aap => "AAP",
            DataSource::Unknown => "Unknown",
        }
    }
}

/// Unified state, independent of which source produced it.
#[derive(Debug, Clone)]
pub struct PodState {
    pub source: DataSource,
    pub left_battery: Option<u8>,
    pub right_battery: Option<u8>,
    pub case_battery: Option<u8>,
    pub left_charging: bool,
    pub right_charging: bool,
    pub case_charging: bool,
    pub left_in_ear: bool,
    pub right_in_ear: bool,
    /// `None` when nothing has reported it: over AAP, which carries no lid data, or
    /// from a BLE advertisement sent while the earbuds are out of the case.
    pub lid_open: Option<bool>,
    /// `None` while the reading came from AAP, which carries no such field.
    pub connection_state: Option<u8>,
    /// Active noise control mode. `None` until the connected device reports one.
    pub noise_mode: Option<NoiseMode>,
    pub device_model: u16,
    pub model_name: String,
    pub color: u8,
    pub primary_pod: PodSide,
    pub real_mac: String,
    pub current_ble_mac: String,
    /// True when this state is attributable to a known device: always for AAP, and
    /// for BLE only when a stored key decrypted the advertisement.
    pub identified: bool,
    /// When the advertisement behind a BLE reading arrived. `None` for AAP, which
    /// is always live.
    pub last_seen: Option<u64>,
}

/// The state nothing has reported into yet.
pub open spec fn is_default_state(s: PodState) -> bool {
    &&& s.source == DataSource::Unknown
    &&& s.left_battery is None && s.right_battery is None && s.case_battery is None
    &&& !s.left_charging && !s.right_charging && !s.case_charging
    &&& !s.left_in_ear && !s.right_in_ear
    &&& s.lid_open is None && s.connection_state is None && s.noise_mode is None
    &&& s.device_model == 0 && s.model_name@.len() == 0 && s.color == 0
    &&& s.primary_pod == PodSide::Unknown
    &&& s.real_mac@.len() == 0 && s.current_ble_mac@.len() == 0
    &&& !s.identified && s.last_seen is None
}

impl Default for PodState {
    fn default() -> (r: Self)
        ensures
            is_default_state(r),
    {
        PodState {
            source: DataSource::Unknown,
            left_battery: None,
            right_battery: None,
            case_battery: None,
            left_charging: false,
            right_charging: false,
            case_charging: false,
            left_in_ear: false,
            right_in_ear: false,
            lid_open: None,
            connection_state: None,
            noise_mode: None,
            device_model: 0,
            model_name: String::new(),
            color: 0,
            primary_pod: PodSide::Unknown,
            real_mac: String::new(),
            current_ble_mac: String::new(),
            identified: false,
            last_seen: None,
        }
    }
}

/// The lower of two optional levels, or whichever one there is.
pub open spec fn lowest_of(left: Option<u8>, right: Option<u8>) -> Option<u8> {
    match (left, right) {
        (Some(l), Some(r)) => Some(if l <= r { l } else { r }),
        (Some(l), None) => Some(l),
        (None, Some(r)) => Some(r),
        (None, None) => None,
    }
}

impl PodState {
    /// Lowest of the two earbuds, which is what the tray shows.
    pub fn lowest_earbud(&self) -> (r: Option<u8>)
        ensures
            r == lowest_of(self.left_battery, self.right_battery),
    {
        match (self.left_battery, self.right_battery) {
            (Some(l), Some(r)) => Some(if l <= r { l } else { r }),
            (Some(l), None) => Some(l),
            (None, Some(r)) => Some(r),
            (None, None) => None,
        }
    }

    /// An exact copy.
    pub fn duplicate(&self) -> (r: PodState)
        ensures
            r == *self,
    {
        PodState {
            source: self.source,
            left_battery: self.left_battery,
            right_battery: self.right_battery,
            case_battery: self.case_battery,
            left_charging: self.left_charging,
            right_charging: self.right_charging,
            case_charging: self.case_charging,
            left_in_ear: self.left_in_ear,
            right_in_ear: self.right_in_ear,
            lid_open: self.lid_open,
            connection_state: self.connection_state,
            noise_mode: self.noise_mode,
            device_model: self.device_model,
            model_name: self.model_name.clone(),
            color: self.color,
            primary_pod: self.primary_pod,
            real_mac: self.real_mac.clone(),
            current_ble_mac: self.current_ble_mac.clone(),
            identified: self.identified,
            last_seen: self.last_seen,
        }
    }
}

/// What consumers receive on every update.
pub struct Snapshot {
    pub states: StrMap<PodState>,
    /// Every device with a live AAP link, in the order they connected.
    pub connected_macs: Vec<String>,
    /// Every MAC an encryption key is held for, sorted.
    pub known_keys: Vec<String>,
    /// BlueZ aliases keyed by uppercase MAC. Empty until BlueZ reports them.
    pub device_names: StrMap<String>,
}

impl Default for Snapshot {
    fn default() -> (r: Self)
        ensures
            r.states@ == Map::<Seq<char>, PodState>::empty(),
            r.connected_macs@.len() == 0,
            r.known_keys@.len() == 0,
            r.device_names@ == Map::<Seq<char>, String>::empty(),
    {
        Snapshot {
            states: StrMap::new(),
            connected_macs: Vec::new(),
            known_keys: Vec::new(),
            device_names: StrMap::new(),
        }
    }
}

/// No linked device has a state.
pub open spec fn no_linked_state(states: Map<Seq<char>, PodState>, macs: Seq<String>) -> bool {
    forall|i: int| 0 <= i < macs.len() ==> !states.contains_key(#[trigger] macs[i]@)
}

/// `s` is the primary device's state: that of the first linked device with one,
/// or, with none, that of some identified device.
pub open spec fn is_primary(states: Map<Seq<char>, PodState>, macs: Seq<String>, s: PodState) -> bool {
    ||| exists|i: int|
        0 <= i < macs.len() && states.contains_key(#[trigger] macs[i]@) && s == states[macs[i]@] && forall|j: int|
            0 <= j < i ==> !states.contains_key(#[trigger] macs[j]@)
    ||| no_linked_state(states, macs) && s.identified && exists|k: Seq<char>|
        #[trigger] states.contains_key(k) && s == states[k]
}

/// There is a primary device: a linked one with a state, or an identified one.
pub open spec fn has_primary(states: Map<Seq<char>, PodState>, macs: Seq<String>) -> bool {
    !no_linked_state(states, macs) || exists|k: Seq<char>| #[trigger] states.contains_key(k) && states[k].identified
}

/// The tray's device is the longest-linked one that has a state: when the first
/// link has one, that is it, whatever later links or advertisements show; and
/// while no linked device has a state, only an identified device can be it, so
/// strangers' rotating advertisements never drive the tray.
pub proof fn lemma_primary_prefers_the_oldest_link(states: Map<Seq<char>, PodState>, macs: Seq<String>, s: PodState)
    requires
        is_primary(states, macs, s),
    ensures
        macs.len() > 0 && states.contains_key(macs[0]@) ==> s == states[macs[0]@],
        no_linked_state(states, macs) ==> s.identified,
        exists|k: Seq<char>| #[trigger] states.contains_key(k) && states[k] == s,
{
    if macs.len() > 0 && states.contains_key(macs[0]@) {
        if exists|i: int|
            0 <= i < macs.len() && states.contains_key(#[trigger] macs[i]@) && s == states[macs[i]@] && forall|j: int|
                0 <= j < i ==> !states.contains_key(#[trigger] macs[j]@) {
            let i = choose|i: int|
                0 <= i < macs.len() && states.contains_key(#[trigger] macs[i]@) && s == states[macs[i]@] && forall|j: int|
                    0 <= j < i ==> !states.contains_key(#[trigger] macs[j]@);
            if i > 0 {
                assert(!states.contains_key(macs[0]@));
            }
        } else {
            assert(!no_linked_state(states, macs));
        }
    }
    if !no_linked_state(states, macs) {
        if exists|i: int|
            0 <= i < macs.len() && states.contains_key(#[trigger] macs[i]@) && s == states[macs[i]@] && forall|j: int|
                0 <= j < i ==> !states.contains_key(#[trigger] macs[j]@) {
            let i = choose|i: int|
                0 <= i < macs.len() && states.contains_key(#[trigger] macs[i]@) && s == states[macs[i]@] && forall|j: int|
                    0 <= j < i ==> !states.contains_key(#[trigger] macs[j]@);
            assert(states.contains_key(macs[i]@) && states[macs[i]@] == s);
        }
    }
}

/// The alias lookup ignores the case of an ASCII MAC: its lower-case and
/// upper-case spellings are ASCII too and look up the same key as the MAC itself,
/// so `Snapshot::device_name` finds the same name, or none, for all three.
pub proof fn lemma_device_name_ignores_case(mac: Seq<char>)
    requires
        is_ascii_text(mac),
    ensures
        is_ascii_text(ascii_lower(mac)),
        is_ascii_text(ascii_upper(mac)),
        ascii_upper(ascii_lower(mac)) == ascii_upper(mac),
        ascii_upper(ascii_upper(mac)) == ascii_upper(mac),
{
    assert(ascii_upper(ascii_lower(mac)) =~= ascii_upper(mac));
    assert(ascii_upper(ascii_upper(mac)) =~= ascii_upper(mac));
}

impl Snapshot {
    /// The BlueZ alias for `mac`, when one is known.
    pub fn device_name(&self, mac: &str) -> (r: Option<&str>)
        ensures
            match r {
                Some(n) => self.device_names@.contains_key(uppercase(mac@)) && n@
                    == self.device_names@[uppercase(mac@)]@,
                None => !self.device_names@.contains_key(uppercase(mac@)),
            },
            is_ascii_text(mac@) ==> match r {
                Some(n) => self.device_names@.contains_key(ascii_upper(mac@)) && n@
                    == self.device_names@[ascii_upper(mac@)]@,
                None => !self.device_names@.contains_key(ascii_upper(mac@)),
            },
    {
        let key = to_uppercase(mac);
        match self.device_names.get(key.as_str()) {
            Some(n) => Some(n.as_str()),
            None => None,
        }
    }

    pub fn is_connected(&self, mac: &str) -> (r: bool)
        ensures
            r == lists_mac(self.connected_macs@, mac@),
    {
        let mut i: usize = 0;
        while i < self.connected_macs.len()
            invariant
                i <= self.connected_macs@.len(),
                forall|j: int| 0 <= j < i ==> #[trigger] self.connected_macs@[j]@ != mac@,
            decreases self.connected_macs@.len() - i,
        {
            if str_eq(self.connected_macs[i].as_str(), mac) {
                return true;
            }
            i = i + 1;
        }
        false
    }

    /// The device that has been on AAP longest, else any identified device. The
    /// longest link rather than the newest, so a second pair connecting does not
    /// take over the tray and the battery reading.
    pub fn primary(&self) -> (r: Option<&PodState>)
        ensures
            match r {
                Some(s) => is_primary(self.states@, self.connected_macs@, *s),
                None => !has_primary(self.states@, self.connected_macs@),
            },
    {
        let mut i: usize = 0;
        while i < self.connected_macs.len()
            invariant
                i <= self.connected_macs@.len(),
                forall|j: int| 0 <= j < i ==> !self.states@.contains_key(#[trigger] self.connected_macs@[j]@),
            decreases self.connected_macs@.len() - i,
        {
            match self.states.get(self.connected_macs[i].as_str()) {
                Some(s) => {
                    return Some(s);
                },
                None => {},
            }
            i = i + 1;
        }
        let n = self.states.len();
        let ghost ps = self.states.pairs();
        proof {
            lemma_map_of(ps);
        }
        let mut k: usize = 0;
        while k < n
            invariant
                n == ps.len(),
                ps == self.states.pairs(),
                distinct_keys(ps),
                forall|j: int|
                    0 <= j < self.connected_macs@.len() ==> !self.states@.contains_key(
                        #[trigger] self.connected_macs@[j]@,
                    ),
                k <= n,
                forall|j: int| 0 <= j < k ==> !(#[trigger] ps[j]).1.identified,
            decreases n - k,
        {
            let s = self.states.value_at(k);
            if s.identified {
                proof {
                    lemma_map_of(ps);
                    assert(has_key(ps, ps[k as int].0));
                    assert(self.states@[ps[k as int].0] == ps[k as int].1);
                    assert(self.states@.contains_key(ps[k as int].0));
                }
                return Some(s);
            }
            k = k + 1;
        }
        proof {
            lemma_map_of(ps);
            assert forall|key: Seq<char>| #[trigger] self.states@.contains_key(key) implies !self.states@[key].identified by {
                let j = choose|j: int| 0 <= j < ps.len() && ps[j].0 == key;
                assert(self.states@[ps[j].0] == ps[j].1);
                assert(!ps[j].1.identified);
            }
        }
        None
    }
}

} // verus!
