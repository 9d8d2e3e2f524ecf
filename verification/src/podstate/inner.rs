//! The coordinator's state and every decision it makes about it.
//!
//! The program around it holds this state behind a lock, performs the I/O (BLE
//! scanning, AAP sockets, the keystore file) and broadcasts the snapshots these
//! functions hand back; a `None` in place of a snapshot means nothing a consumer
//! shows has changed.
use vstd::prelude::*;
use crate::aap::battery::{
    Battery, BatteryInfo, BatteryParseError, Status, battery_packet_result, is_battery_header, is_battery_packet,
    parse_battery_packet,
};
use crate::aap::keys::{
    KeyParseError, encryption_key_result, find_encryption_key, is_key_header, is_key_packet, key_packet_result,
    parse_proximity_keys,
};
use crate::aap::noise::{
    MODE, NoiseMode, NoiseParseError, is_mode_report, is_noise_mode_packet, mode_of_byte, parse_noise_mode_packet,
};
use crate::ble::decrypt::KEY_LEN;
use crate::ble::decrypt::{decrypt_for_device, device_decrypt_result};
use crate::ble::parser::{PodSide, ProximityData, decode_model_name, encrypted_part, merged_decrypted, model_name};
use vstd::slice::slice_to_vec;
use crate::podstate::{BLE_CACHE_TTL, DEVICE_TTL, DataSource, PodState, Snapshot};
use crate::strmap::{StrMap, distinct_keys, has_key, in_lex_order, lemma_map_of, lemma_map_of_prefix, lists_keys_of, lists_mac, map_of};
use crate::text::{copy_str, str_eq};

verus! {

/// The last advertisement of a device, and when it arrived.
pub struct Entry {
    pub state: PodState,
    pub last_seen: u64,
}

/// One device's AAP connection.
pub struct Link {
    /// Identifies the connection's client. A read loop reports with the id of the
    /// client it reads, so a loop that outlived its link cannot touch a newer one.
    pub client_id: u64,
    /// `None` until the first battery packet.
    pub reading: Option<PodState>,
    /// When the link came up; orders `Snapshot::connected_macs`.
    pub since: u64,
}

pub struct Inner {
    /// The last advertisement per device - BLE only. The connected device's entry
    /// keeps updating underneath AAP, so it is current when the link drops.
    pub ble: StrMap<Entry>,
    /// One per live AAP link, keyed by real MAC.
    pub links: StrMap<Link>,
    pub encryption_keys: StrMap<Vec<u8>>,
    pub device_names: StrMap<String>,
    /// Noise control mode per real MAC. Only AAP reports it.
    pub noise_modes: StrMap<NoiseMode>,
}

/// How long a cached reading stays: identified devices keep theirs for the cache
/// TTL, the rest (keyed by rotating random MACs) for the device TTL.
pub open spec fn ttl_for(identified: bool) -> u64 {
    if identified {
        BLE_CACHE_TTL
    } else {
        DEVICE_TTL
    }
}

/// Time elapsed from `seen` to `now`; zero when `seen` is later.
pub open spec fn age(now: u64, seen: u64) -> int {
    if now >= seen {
        now - seen
    } else {
        0
    }
}

/// A reading younger than its TTL.
pub open spec fn is_fresh(e: Entry, now: u64) -> bool {
    age(now, e.last_seen) < ttl_for(e.state.identified)
}

/// The readings that survive a prune at `now`.
pub open spec fn fresh_entries(ble: Map<Seq<char>, Entry>, now: u64) -> Map<Seq<char>, Entry> {
    Map::new(|k: Seq<char>| ble.contains_key(k) && is_fresh(ble[k], now), |k: Seq<char>| ble[k])
}

/// Some reading has outlived its TTL.
pub open spec fn has_stale(ble: Map<Seq<char>, Entry>, now: u64) -> bool {
    exists|k: Seq<char>| #[trigger] ble.contains_key(k) && !is_fresh(ble[k], now)
}

/// Midway through a prune: the fresh readings, and every one not looked at yet.
spec fn kept_after(m: Map<Seq<char>, Entry>, ps: Seq<(Seq<char>, Entry)>, j: int, now: u64) -> Map<Seq<char>, Entry> {
    Map::new(
        |k: Seq<char>| m.contains_key(k) && (is_fresh(m[k], now) || exists|t: int| j <= t < ps.len() && #[trigger] ps[t].0 == k),
        |k: Seq<char>| m[k],
    )
}

fn entry_is_fresh(e: &Entry, now: u64) -> (r: bool)
    ensures
        r == is_fresh(*e, now),
{
    let age: u64 = if now >= e.last_seen {
        now - e.last_seen
    } else {
        0
    };
    let ttl: u64 = if e.state.identified {
        BLE_CACHE_TTL
    } else {
        DEVICE_TTL
    };
    age < ttl
}

/// A reading stamped with when its advertisement arrived.
pub open spec fn with_last_seen(s: PodState, t: u64) -> PodState {
    PodState { last_seen: Some(t), ..s }
}

/// A reading with the noise control mode the device reported.
pub open spec fn with_noise_mode(s: PodState, m: Option<NoiseMode>) -> PodState {
    PodState { noise_mode: m, ..s }
}

/// The cached advertisements of the devices without a link, stamped.
pub open spec fn cached_states(ble: Map<Seq<char>, Entry>, links: Map<Seq<char>, Link>) -> Map<Seq<char>, PodState> {
    Map::new(
        |k: Seq<char>| ble.contains_key(k) && !links.contains_key(k),
        |k: Seq<char>| with_last_seen(ble[k].state, ble[k].last_seen),
    )
}

/// Each link's reading, once it has one, with the mode its device reported.
pub open spec fn live_states(links: Map<Seq<char>, Link>, modes: Map<Seq<char>, NoiseMode>) -> Map<Seq<char>, PodState> {
    Map::new(
        |k: Seq<char>| links.contains_key(k) && links[k].reading is Some,
        |k: Seq<char>| with_noise_mode(links[k].reading->0, modes.get(k)),
    )
}

/// What a snapshot shows per device: a live link's reading where there is one,
/// else the cached advertisement. A linked device waiting for its first battery
/// packet shows nothing: a BLE reading would leave the controls insensitive on a
/// device that can be commanded.
pub open spec fn shown_states(
    ble: Map<Seq<char>, Entry>,
    links: Map<Seq<char>, Link>,
    modes: Map<Seq<char>, NoiseMode>,
) -> Map<Seq<char>, PodState> {
    cached_states(ble, links).union_prefer_right(live_states(links, modes))
}

/// A copy of a name map.
fn copy_names(m: &StrMap<String>) -> (r: StrMap<String>)
    ensures
        r@ == m@,
{
    let n = m.len();
    let ghost ps = m.pairs();
    let mut r: StrMap<String> = StrMap::new();
    let mut i: usize = 0;
    assert(ps.subrange(0, 0) =~= Seq::<(Seq<char>, String)>::empty());
    while i < n
        invariant
            n == ps.len(),
            ps == m.pairs(),
            distinct_keys(ps),
            i <= n,
            r@ == map_of(ps.subrange(0, i as int)),
        decreases n - i,
    {
        proof {
            lemma_map_of_prefix(ps, i as int);
        }
        r.insert(m.key_at(i).clone(), m.value_at(i).clone());
        i = i + 1;
    }
    assert(ps.subrange(0, n as int) =~= ps);
    r
}

/// Ordered by when their links came up.
pub open spec fn in_link_order(macs: Seq<String>, links: Map<Seq<char>, Link>) -> bool {
    forall|i: int, j: int| 0 <= i < j < macs.len() ==> links[#[trigger] macs[i]@].since <= links[#[trigger] macs[j]@].since
}

/// The linked MACs, in the order their links came up.
fn macs_by_link_age(links: &StrMap<Link>) -> (r: Vec<String>)
    ensures
        lists_keys_of(r@, links@),
        in_link_order(r@, links@),
{
    let n = links.len();
    let ghost ps = links.pairs();
    proof {
        lemma_map_of(ps);
    }
    let mut out: Vec<String> = Vec::new();
    let mut since: Vec<u64> = Vec::new();
    let mut i: usize = 0;
    while i < n
        invariant
            n == ps.len(),
            ps == links.pairs(),
            distinct_keys(ps),
            links@ == map_of(ps),
            forall|u: int| 0 <= u < n ==> #[trigger] links@[ps[u].0] == ps[u].1,
            forall|u: int| 0 <= u < n ==> links@.contains_key(#[trigger] ps[u].0),
            i <= n,
            out@.len() == i,
            since@.len() == i,
            forall|t: int| 0 <= t < out@.len() ==> #[trigger] since@[t] == links@[out@[t]@].since,
            forall|a: int, b: int| 0 <= a < b < out@.len() ==> #[trigger] since@[a] <= #[trigger] since@[b],
            forall|t: int| 0 <= t < out@.len() ==> exists|u: int| 0 <= u < i && ps[u].0 == #[trigger] out@[t]@,
            forall|u: int| 0 <= u < i ==> lists_mac(out@, #[trigger] ps[u].0),
            forall|a: int, b: int| 0 <= a < out@.len() && 0 <= b < out@.len() && a != b ==> out@[a]@ != out@[b]@,
        decreases n - i,
    {
        let key = links.key_at(i).clone();
        let s = links.value_at(i).since;
        let ghost k = key@;
        assert(k == ps[i as int].0);
        let mut q: usize = 0;
        while q < since.len() && since[q] <= s
            invariant
                q <= since@.len(),
                forall|t: int| 0 <= t < q ==> #[trigger] since@[t] <= s,
            decreases since@.len() - q,
        {
            q = q + 1;
        }
        proof {
            assert forall|t: int| 0 <= t < out@.len() implies #[trigger] out@[t]@ != k by {
                let u = choose|u: int| 0 <= u < i && ps[u].0 == #[trigger] out@[t]@;
                assert(ps[u].0 != ps[i as int].0);
            }
        }
        let ghost before = out@;
        let ghost sbefore = since@;
        out.insert(q, key);
        since.insert(q, s);
        proof {
            before.insert_ensures(q as int, out@[q as int]);
            sbefore.insert_ensures(q as int, s);
            assert forall|t: int| q <= t < sbefore.len() implies s < #[trigger] sbefore[t] by {
                assert(s < sbefore[q as int]);
            }
            assert forall|t: int| 0 <= t < out@.len() implies #[trigger] since@[t] == links@[out@[t]@].since by {
                if t < q {
                    assert(out@[t] == before[t] && since@[t] == sbefore[t]);
                } else if t > q {
                    assert(out@[t] == before[t - 1] && since@[t] == sbefore[t - 1]);
                }
            }
            assert forall|a: int, b: int| 0 <= a < b < out@.len() implies #[trigger] since@[a] <= #[trigger] since@[b] by {
                if b < q {
                    assert(since@[a] == sbefore[a] && since@[b] == sbefore[b]);
                } else if b == q {
                    assert(since@[a] == sbefore[a]);
                } else if a < q {
                    assert(since@[a] == sbefore[a] && since@[b] == sbefore[b - 1]);
                } else if a == q {
                    assert(since@[b] == sbefore[b - 1]);
                } else {
                    assert(since@[a] == sbefore[a - 1] && since@[b] == sbefore[b - 1]);
                }
            }
            assert forall|t: int| 0 <= t < out@.len() implies exists|u: int| 0 <= u < i + 1 && ps[u].0 == #[trigger] out@[t]@ by {
                if t < q {
                    assert(out@[t] == before[t]);
                    let u = choose|u: int| 0 <= u < i && ps[u].0 == #[trigger] before[t]@;
                } else if t == q {
                    assert(ps[i as int].0 == out@[t]@);
                } else {
                    assert(out@[t] == before[t - 1]);
                    let u = choose|u: int| 0 <= u < i && ps[u].0 == #[trigger] before[t - 1]@;
                }
            }
            assert forall|u: int| 0 <= u < i + 1 implies lists_mac(out@, #[trigger] ps[u].0) by {
                if u < i {
                    assert(lists_mac(before, ps[u].0));
                    let t = choose|t: int| 0 <= t < before.len() && #[trigger] before[t]@ == ps[u].0;
                    if t < q {
                        assert(out@[t] == before[t]);
                    } else {
                        assert(out@[t + 1] == before[t]);
                    }
                } else {
                    assert(out@[q as int]@ == ps[u].0);
                }
            }
            assert forall|a: int, b: int| 0 <= a < out@.len() && 0 <= b < out@.len() && a != b implies out@[a]@ != out@[b]@ by {
                let x = if a < q { a } else { a - 1 };
                let y = if b < q { b } else { b - 1 };
                if a != q && b != q {
                    assert(out@[a] == before[x] && out@[b] == before[y]);
                } else if a == q {
                    assert(out@[b] == before[y]);
                } else {
                    assert(out@[a] == before[x]);
                }
            }
        }
        i = i + 1;
    }
    proof {
        assert forall|k: Seq<char>| #[trigger] links@.contains_key(k) <==> lists_mac(out@, k) by {
            if links@.contains_key(k) {
                let u = choose|u: int| 0 <= u < ps.len() && ps[u].0 == k;
                assert(lists_mac(out@, ps[u].0));
            }
            if lists_mac(out@, k) {
                let t = choose|t: int| 0 <= t < out@.len() && #[trigger] out@[t]@ == k;
                let u = choose|u: int| 0 <= u < n && ps[u].0 == #[trigger] out@[t]@;
                assert(has_key(ps, k));
            }
        }
        assert forall|a: int, b: int| 0 <= a < b < out@.len() implies links@[#[trigger] out@[a]@].since <= links@[#[trigger] out@[b]@].since by {
            assert(since@[a] <= since@[b]);
        }
    }
    out
}

/// What a battery packet read by `id` from the link of `mac` does: nothing unless
/// the link is there and still that client's; then the link's reading becomes
/// the packet's, with the device's identity carried over, and a snapshot
/// follows.
pub open spec fn battery_handled(before: Inner, after: Inner, info: BatteryInfo, mac: Seq<char>, id: u64, r: Option<Snapshot>) -> bool {
    if !link_matches(before.links@, mac, Some(id)) {
        r is None && after == before
    } else {
        &&& exists|s: PodState|
            #[trigger] battery_state(s, info, mac, identity_source(before.ble@, before.links@, mac))
                && after.links@ == before.links@.insert(
                mac,
                Link { client_id: id, reading: Some(s), since: before.links@[mac].since },
            )
        &&& only_links_changed(before, after)
        &&& r matches Some(snap) && describes(snap, after)
    }
}

/// What a reported mode does: nothing when it is the mode already recorded,
/// else it is recorded and a snapshot follows.
pub open spec fn mode_handled(before: Inner, after: Inner, mode: NoiseMode, mac: Seq<char>, r: Option<Snapshot>) -> bool {
    if before.noise_modes@.get(mac) == Some(mode) {
        r is None && after == before
    } else {
        &&& after.noise_modes@ == before.noise_modes@.insert(mac, mode)
        &&& after.ble == before.ble && after.links == before.links
        &&& after.encryption_keys == before.encryption_keys && after.device_names == before.device_names
        &&& r matches Some(snap) && describes(snap, after)
    }
}

/// What a received key does: nothing when it is the key already held, else it
/// is taken in; `r` tells which.
pub open spec fn key_stored(before: Inner, after: Inner, mac: Seq<char>, key: Seq<u8>, r: bool) -> bool {
    &&& r == !(before.encryption_keys@.contains_key(mac) && before.encryption_keys@[mac]@ == key)
    &&& !r ==> after == before
    &&& r ==> after.encryption_keys@.map_values(|k: Vec<u8>| k@) == before.encryption_keys@.map_values(
        |k: Vec<u8>| k@,
    ).insert(mac, key)
    &&& after.ble == before.ble && after.links == before.links
    &&& after.device_names == before.device_names && after.noise_modes == before.noise_modes
}

/// What reading a mode report gives.
pub open spec fn mode_report_result(packet: Seq<u8>) -> Result<NoiseMode, NoiseParseError> {
    if !is_mode_report(packet) {
        Err(NoiseParseError::NotNoiseControlPacket)
    } else {
        match mode_of_byte(packet[MODE as int]) {
            Some(m) => Ok(m),
            None => Err(NoiseParseError::UnknownMode(packet[MODE as int])),
        }
    }
}

/// The encryption key a key packet carries, or why there is none.
pub open spec fn key_packet_key(packet: Seq<u8>) -> Result<Seq<u8>, KeyParseError> {
    match key_packet_result(packet) {
        Err(e) => Err(e),
        Ok(keys) => encryption_key_result(keys),
    }
}

/// What one AAP packet led to. The three kinds are looked at in turn - battery,
/// noise control, keys - and each may yield a snapshot to send or a reason the
/// packet was refused.
pub struct PacketEffects {
    pub battery: Option<Snapshot>,
    pub battery_error: Option<BatteryParseError>,
    pub noise: Option<Snapshot>,
    pub noise_error: Option<NoiseParseError>,
    /// A key the state took in, to be written to the keys file.
    pub new_key: Option<[u8; KEY_LEN]>,
    pub key_error: Option<KeyParseError>,
}

/// The battery step of a packet.
pub open spec fn battery_step(before: Inner, after: Inner, packet: Seq<u8>, mac: Seq<char>, id: u64, snap: Option<Snapshot>, err: Option<BatteryParseError>) -> bool {
    if !is_battery_header(packet) {
        after == before && snap is None && err is None
    } else {
        match battery_packet_result(packet) {
            Err(e) => after == before && snap is None && err == Some(e),
            Ok(info) => err is None && battery_handled(before, after, info, mac, id, snap),
        }
    }
}

/// The noise control step of a packet.
pub open spec fn noise_step(before: Inner, after: Inner, packet: Seq<u8>, mac: Seq<char>, snap: Option<Snapshot>, err: Option<NoiseParseError>) -> bool {
    if !is_mode_report(packet) {
        after == before && snap is None && err is None
    } else {
        match mode_report_result(packet) {
            Err(e) => after == before && snap is None && err == Some(e),
            Ok(mode) => err is None && mode_handled(before, after, mode, mac, snap),
        }
    }
}

/// The key step of a packet.
pub open spec fn key_step(before: Inner, after: Inner, packet: Seq<u8>, mac: Seq<char>, new_key: Option<[u8; KEY_LEN]>, err: Option<KeyParseError>) -> bool {
    if !is_key_header(packet) {
        after == before && new_key is None && err is None
    } else {
        match key_packet_key(packet) {
            Err(e) => after == before && new_key is None && err == Some(e),
            Ok(k) => err is None && key_stored(before, after, mac, k, new_key is Some) && (new_key matches Some(
                x,
            ) ==> x@ == k),
        }
    }
}

/// The snapshot shows `inner` as it is.
pub open spec fn describes(r: Snapshot, inner: Inner) -> bool {
    &&& r.states@ == shown_states(inner.ble@, inner.links@, inner.noise_modes@)
    &&& lists_keys_of(r.connected_macs@, inner.links@)
    &&& in_link_order(r.connected_macs@, inner.links@)
    &&& lists_keys_of(r.known_keys@, inner.encryption_keys@)
    &&& in_lex_order(r.known_keys@)
    &&& r.device_names@ == inner.device_names@
}

/// The stored key `k` decrypts the encrypted portion `enc` and the plaintext
/// names the key's device.
pub open spec fn key_identifies(enc: Seq<u8>, k: (Seq<char>, Vec<u8>)) -> bool {
    device_decrypt_result(enc, k.1@, k.0) is Ok
}

/// What identification does to an advertisement with the keys tried in order:
/// the first key that identifies it names the device, and its plaintext replaces
/// the coarse battery data; with none, the advertisement stays as it was.
pub open spec fn identified_as(
    before: ProximityData,
    keys: Seq<(Seq<char>, Vec<u8>)>,
    after: ProximityData,
    real_mac: Option<Seq<char>>,
) -> bool {
    match encrypted_part(before.raw_data@) {
        None => real_mac is None && after == before,
        Some(enc) => match real_mac {
            Some(mac) => exists|i: int|
                0 <= i < keys.len() && keys[i].0 == mac && #[trigger] key_identifies(enc, keys[i])
                    && (forall|j: int| 0 <= j < i ==> !key_identifies(enc, #[trigger] keys[j]))
                    && merged_decrypted(before, after, device_decrypt_result(enc, keys[i].1@, mac)->Ok_0),
            None => (forall|j: int| 0 <= j < keys.len() ==> !key_identifies(enc, #[trigger] keys[j]))
                && after == before,
        },
    }
}

/// The state an advertisement makes of a device.
pub open spec fn advertised_state(s: PodState, d: ProximityData, real_mac: Option<Seq<char>>, ble_mac: Seq<char>) -> bool {
    &&& s.source == DataSource::Ble
    &&& s.left_battery == d.left_battery && s.right_battery == d.right_battery
    &&& s.case_battery == d.case_battery
    &&& s.left_charging == d.left_charging && s.right_charging == d.right_charging
    &&& s.case_charging == d.case_charging
    &&& s.left_in_ear == d.left_in_ear && s.right_in_ear == d.right_in_ear
    &&& s.lid_open == d.lid_open
    &&& s.connection_state == Some(d.connection_state)
    &&& s.noise_mode is None
    &&& s.device_model == d.device_model
    &&& s.model_name@ == model_name(d.device_model)
    &&& s.color == d.color
    &&& s.primary_pod == (if d.is_flipped { PodSide::Right } else { PodSide::Left })
    &&& s.real_mac@ == (match real_mac {
        Some(m) => m,
        None => Seq::<char>::empty(),
    })
    &&& s.current_ble_mac@ == ble_mac
    &&& s.identified == (real_mac is Some)
    &&& s.last_seen is None
}

/// The key an advertisement is filed under: the real MAC once identified, else
/// the random one it came from.
pub open spec fn filing_key(real_mac: Option<Seq<char>>, ble_mac: Seq<char>) -> Seq<char> {
    match real_mac {
        Some(m) => m,
        None => ble_mac,
    }
}

/// Recording an advertisement: the entry goes in (even while AAP supersedes
/// it, so that it is current the moment the link drops), stale ones go out, and
/// a snapshot follows unless the device's own link supersedes the reading and
/// nothing expired.
pub open spec fn recorded(
    before: Inner,
    after: Inner,
    d: ProximityData,
    real_mac: Option<Seq<char>>,
    ble_mac: Seq<char>,
    now: u64,
    r: Option<Snapshot>,
) -> bool {
    let key = filing_key(real_mac, ble_mac);
    &&& exists|s: PodState|
        #[trigger] advertised_state(s, d, real_mac, ble_mac) && after.ble@ == fresh_entries(
            before.ble@.insert(key, Entry { state: s, last_seen: now }),
            now,
        ) && (r is None <==> before.links@.contains_key(key) && !has_stale(
            before.ble@.insert(key, Entry { state: s, last_seen: now }),
            now,
        ))
    &&& after.links == before.links
    &&& after.encryption_keys == before.encryption_keys
    &&& after.device_names == before.device_names
    &&& after.noise_modes == before.noise_modes
    &&& (r matches Some(snap) ==> describes(snap, after))
}

/// The level a component reported, if it reported one.
pub open spec fn level_of(b: Option<Battery>) -> Option<u8> {
    match b {
        Some(x) => x.level,
        None => None,
    }
}

/// Whether a component reported that it is charging.
pub open spec fn charging_of(b: Option<Battery>) -> bool {
    match b {
        Some(x) => x.status == Status::Charging,
        None => false,
    }
}

/// Where an AAP reading takes the device's identity from: AAP carries battery
/// only, so model, colour and orientation come from the last advertisement, or
/// from the previous AAP reading for a device that has not advertised yet.
pub open spec fn identity_source(ble: Map<Seq<char>, Entry>, links: Map<Seq<char>, Link>, mac: Seq<char>) -> Option<PodState> {
    if ble.contains_key(mac) {
        Some(ble[mac].state)
    } else if links.contains_key(mac) {
        links[mac].reading
    } else {
        None
    }
}

/// The state an AAP battery packet makes of a device.
pub open spec fn battery_state(s: PodState, info: BatteryInfo, mac: Seq<char>, identity: Option<PodState>) -> bool {
    &&& s.source == DataSource::Aap
    &&& s.left_battery == level_of(info.left)
    &&& s.right_battery == level_of(info.right)
    &&& s.case_battery == level_of(info.case)
    &&& s.left_charging == charging_of(info.left)
    &&& s.right_charging == charging_of(info.right)
    &&& s.case_charging == charging_of(info.case)
    &&& !s.left_in_ear && !s.right_in_ear
    &&& s.lid_open is None && s.connection_state is None && s.noise_mode is None
    &&& s.real_mac@ == mac
    &&& s.current_ble_mac@.len() == 0
    &&& s.identified
    &&& s.last_seen is None
    &&& match identity {
        Some(i) => s.device_model == i.device_model && s.model_name@ == i.model_name@ && s.color == i.color
            && s.primary_pod == i.primary_pod,
        None => s.device_model == 0 && s.model_name@.len() == 0 && s.color == 0 && s.primary_pod
            == PodSide::Unknown,
    }
}

/// Only the link of `mac` (or nothing) differs between the two states.
pub open spec fn only_links_changed(before: Inner, after: Inner) -> bool {
    &&& after.ble == before.ble
    &&& after.encryption_keys == before.encryption_keys
    &&& after.device_names == before.device_names
    &&& after.noise_modes == before.noise_modes
}

/// The link of `mac` is there and, when `only` names a client, still that client's.
pub open spec fn link_matches(links: Map<Seq<char>, Link>, mac: Seq<char>, only: Option<u64>) -> bool {
    links.contains_key(mac) && match only {
        Some(id) => links[mac].client_id == id,
        None => true,
    }
}

fn bytes_equal(a: &[u8], b: &[u8]) -> (r: bool)
    ensures
        r == (a@ == b@),
{
    if a.len() != b.len() {
        return false;
    }
    let mut i: usize = 0;
    while i < a.len()
        invariant
            a@.len() == b@.len(),
            i <= a@.len(),
            forall|k: int| 0 <= k < i ==> a@[k] == b@[k],
        decreases a@.len() - i,
    {
        if a[i] != b[i] {
            return false;
        }
        i = i + 1;
    }
    assert(a@ =~= b@);
    true
}

/// Two name maps hold the same names.
fn names_equal(a: &StrMap<String>, b: &StrMap<String>) -> (r: bool)
    ensures
        r == (a@.map_values(|s: String| s@) == b@.map_values(|s: String| s@)),
{
    let n = a.len();
    if n != b.len() {
        proof {
            if a@.map_values(|s: String| s@) == b@.map_values(|s: String| s@) {
                assert(a@.dom() =~= a@.map_values(|s: String| s@).dom());
                assert(b@.dom() =~= b@.map_values(|s: String| s@).dom());
            }
        }
        return false;
    }
    let ghost ps = a.pairs();
    proof {
        lemma_map_of(ps);
    }
    let mut i: usize = 0;
    while i < n
        invariant
            n == ps.len(),
            ps == a.pairs(),
            a@ == map_of(ps),
            n == a@.len(),
            n == b@.len(),
            a@.dom().finite(),
            b@.dom().finite(),
            forall|t: int| 0 <= t < n ==> #[trigger] a@[ps[t].0] == ps[t].1,
            forall|k: Seq<char>| #[trigger] a@.contains_key(k) <==> has_key(ps, k),
            i <= n,
            forall|t: int| 0 <= t < i ==> b@.contains_key(#[trigger] ps[t].0) && b@[ps[t].0]@ == ps[t].1@,
        decreases n - i,
    {
        let k = a.key_at(i);
        let v = a.value_at(i);
        match b.get(k.as_str()) {
            Some(w) => {
                if !str_eq(v.as_str(), w.as_str()) {
                    proof {
                        assert(a@.map_values(|s: String| s@)[ps[i as int].0] != b@.map_values(|s: String| s@)[ps[i as int].0]);
                    }
                    return false;
                }
            },
            None => {
                proof {
                    assert(has_key(ps, ps[i as int].0));
                    assert(a@.map_values(|s: String| s@).contains_key(ps[i as int].0));
                }
                return false;
            },
        }
        i = i + 1;
    }
    proof {
        assert(a@.dom().subset_of(b@.dom())) by {
            assert forall|k: Seq<char>| #[trigger] a@.dom().contains(k) implies b@.dom().contains(k) by {
                let t = choose|t: int| 0 <= t < ps.len() && ps[t].0 == k;
                assert(b@.contains_key(ps[t].0));
            }
        }
        vstd::set_lib::lemma_subset_equality(a@.dom(), b@.dom());
        assert forall|k: Seq<char>| #[trigger] a@.contains_key(k) implies a@[k]@ == b@[k]@ by {
            let t = choose|t: int| 0 <= t < ps.len() && ps[t].0 == k;
            assert(b@.contains_key(ps[t].0));
        }
        assert(a@.map_values(|s: String| s@) =~= b@.map_values(|s: String| s@));
    }
    true
}

impl Inner {
    /// What every device shows, see `shown_states`.
    fn states(&self) -> (r: StrMap<PodState>)
        ensures
            r@ == shown_states(self.ble@, self.links@, self.noise_modes@),
    {
        let mut states: StrMap<PodState> = StrMap::new();
        let n = self.ble.len();
        let ghost bps = self.ble.pairs();
        let mut i: usize = 0;
        assert(bps.subrange(0, 0) =~= Seq::<(Seq<char>, Entry)>::empty());
        assert(states@ =~= cached_states(map_of(bps.subrange(0, 0)), self.links@));
        while i < n
            invariant
                n == bps.len(),
                bps == self.ble.pairs(),
                distinct_keys(bps),
                i <= n,
                states@ == cached_states(map_of(bps.subrange(0, i as int)), self.links@),
            decreases n - i,
        {
            proof {
                lemma_map_of_prefix(bps, i as int);
            }
            let mac = self.ble.key_at(i);
            if !self.links.contains_key(mac.as_str()) {
                let e = self.ble.value_at(i);
                let mut st = e.state.duplicate();
                st.last_seen = Some(e.last_seen);
                states.insert(mac.clone(), st);
                assert(states@ =~= cached_states(map_of(bps.subrange(0, i + 1)), self.links@));
            } else {
                assert(states@ =~= cached_states(map_of(bps.subrange(0, i + 1)), self.links@));
            }
            i = i + 1;
        }
        assert(bps.subrange(0, n as int) =~= bps);
        let m = self.links.len();
        let ghost lps = self.links.pairs();
        let mut j: usize = 0;
        assert(lps.subrange(0, 0) =~= Seq::<(Seq<char>, Link)>::empty());
        assert(states@ =~= cached_states(self.ble@, self.links@).union_prefer_right(
            live_states(map_of(lps.subrange(0, 0)), self.noise_modes@),
        ));
        while j < m
            invariant
                m == lps.len(),
                lps == self.links.pairs(),
                distinct_keys(lps),
                self.links@ == map_of(lps),
                j <= m,
                states@ == cached_states(self.ble@, self.links@).union_prefer_right(
                    live_states(map_of(lps.subrange(0, j as int)), self.noise_modes@),
                ),
            decreases m - j,
        {
            proof {
                lemma_map_of_prefix(lps, j as int);
                lemma_map_of(lps);
                assert(self.links@.contains_key(lps[j as int].0)) by {
                    assert(has_key(lps, lps[j as int].0));
                }
            }
            let link = self.links.value_at(j);
            match &link.reading {
                Some(reading) => {
                    let mac = self.links.key_at(j);
                    let mut st = reading.duplicate();
                    st.noise_mode = match self.noise_modes.get(mac.as_str()) {
                        Some(mode) => Some(*mode),
                        None => None,
                    };
                    states.insert(mac.clone(), st);
                },
                None => {},
            }
            assert(states@ =~= cached_states(self.ble@, self.links@).union_prefer_right(
                live_states(map_of(lps.subrange(0, j + 1)), self.noise_modes@),
            ));
            j = j + 1;
        }
        assert(lps.subrange(0, m as int) =~= lps);
        states
    }

    /// What consumers are sent: every device's state, the linked devices in the
    /// order they connected, the MACs a key is held for, and the BlueZ names.
    pub fn snapshot(&self) -> (r: Snapshot)
        ensures
            r.states@ == shown_states(self.ble@, self.links@, self.noise_modes@),
            lists_keys_of(r.connected_macs@, self.links@),
            in_link_order(r.connected_macs@, self.links@),
            lists_keys_of(r.known_keys@, self.encryption_keys@),
            in_lex_order(r.known_keys@),
            r.device_names@ == self.device_names@,
    {
        Snapshot {
            states: self.states(),
            connected_macs: macs_by_link_age(&self.links),
            known_keys: self.encryption_keys.sorted_keys(),
            device_names: copy_names(&self.device_names),
        }
    }

    /// Tries every stored key, in order, against the advertisement's encrypted
    /// portion. A key that validates identifies the device, mapping a randomized
    /// BLE MAC back to the real one, and its plaintext gives exact battery levels.
    /// Returns the real MAC when identified.
    pub fn identify_and_decrypt(&self, data: &mut ProximityData) -> (r: Option<String>)
        ensures
            identified_as(
                *old(data),
                self.encryption_keys.pairs(),
                *final(data),
                match r {
                    Some(m) => Some(m@),
                    None => None,
                },
            ),
    {
        let encrypted = match data.encrypted_portion() {
            Some(e) => slice_to_vec(e),
            None => return None,
        };
        let ghost enc = encrypted@;
        let n = self.encryption_keys.len();
        let ghost ks = self.encryption_keys.pairs();
        let mut i: usize = 0;
        while i < n
            invariant
                n == ks.len(),
                ks == self.encryption_keys.pairs(),
                encrypted_part(old(data).raw_data@) == Some(enc),
                encrypted@ == enc,
                *data == *old(data),
                i <= n,
                forall|j: int| 0 <= j < i ==> !key_identifies(enc, #[trigger] ks[j]),
            decreases n - i,
        {
            let mac = self.encryption_keys.key_at(i);
            let key = self.encryption_keys.value_at(i);
            match decrypt_for_device(encrypted.as_slice(), key.as_slice(), mac.as_str()) {
                Ok(decrypted) => {
                    assert(key_identifies(enc, ks[i as int]));
                    if data.add_decrypted_data(&decrypted).is_ok() {
                        return Some(mac.clone());
                    }
                },
                Err(_) => {
                    assert(!key_identifies(enc, ks[i as int]));
                },
            }
            i = i + 1;
        }
        None
    }

    /// Files one advertisement, already run through identification, and prunes.
    pub fn record_advertisement(&mut self, data: &ProximityData, real_mac: Option<String>, ble_mac: String, now: u64) -> (r: Option<Snapshot>)
        ensures
            recorded(
                *old(self),
                *final(self),
                *data,
                match real_mac {
                    Some(m) => Some(m@),
                    None => None,
                },
                ble_mac@,
                now,
                r,
            ),
    {
        let ghost real_view = match &real_mac {
            Some(m) => Some(m@),
            None => None,
        };
        let identified = real_mac.is_some();
        let key_mac = match &real_mac {
            Some(m) => m.clone(),
            None => ble_mac.clone(),
        };
        let state = PodState {
            source: DataSource::Ble,
            left_battery: data.left_battery,
            right_battery: data.right_battery,
            case_battery: data.case_battery,
            left_charging: data.left_charging,
            right_charging: data.right_charging,
            case_charging: data.case_charging,
            left_in_ear: data.left_in_ear,
            right_in_ear: data.right_in_ear,
            lid_open: data.lid_open,
            connection_state: Some(data.connection_state),
            // BLE carries no noise control mode; `snapshot` attaches the one
            // reported over AAP for a connected device.
            noise_mode: None,
            device_model: data.device_model,
            model_name: decode_model_name(data.device_model),
            color: data.color,
            primary_pod: data.primary_pod(),
            real_mac: match real_mac {
                Some(m) => m,
                None => String::new(),
            },
            current_ble_mac: ble_mac,
            identified,
            last_seen: None,
        };
        assert(advertised_state(state, *data, real_view, state.current_ble_mac@));
        let ghost e = Entry { state, last_seen: now };
        self.ble.insert(key_mac.clone(), Entry { state, last_seen: now });
        let pruned = self.prune(now);
        if self.supersedes_ble(key_mac.as_str()) && !pruned {
            assert(advertised_state(e.state, *data, real_view, ble_mac@));
            return None;
        }
        assert(advertised_state(e.state, *data, real_view, ble_mac@));
        Some(self.snapshot())
    }

    /// Handles one BLE advertisement: identification, then filing. An AAP link
    /// supersedes BLE only for its own device; other AirPods keep advertising and
    /// are still tracked, so the decision is made per device after identification.
    pub fn handle_advertisement(&mut self, data: ProximityData, ble_mac: String, now: u64) -> (r: Option<Snapshot>)
        ensures
            exists|d: ProximityData, real_mac: Option<Seq<char>>|
                #[trigger] identified_as(data, old(self).encryption_keys.pairs(), d, real_mac) && recorded(
                    *old(self),
                    *final(self),
                    d,
                    real_mac,
                    ble_mac@,
                    now,
                    r,
                ),
    {
        let ghost given = data;
        let mut data = data;
        let real_mac = self.identify_and_decrypt(&mut data);
        let ghost d = data;
        let ghost real_view = match &real_mac {
            Some(m) => Some(m@),
            None => None,
        };
        let r = self.record_advertisement(&data, real_mac, ble_mac, now);
        assert(identified_as(given, old(self).encryption_keys.pairs(), d, real_view));
        r
    }

    /// Records a new AAP link, after its connection came up. An attempt that lost
    /// the race to another one changes nothing: that link stands, and the caller
    /// closes its own connection.
    pub fn add_link(&mut self, mac_addr: &str, client_id: u64, now: u64) -> (r: Option<Snapshot>)
        ensures
            old(self).links@.contains_key(mac_addr@) ==> r is None && *final(self) == *old(self),
            !old(self).links@.contains_key(mac_addr@) ==> final(self).links@ == old(self).links@.insert(
                mac_addr@,
                Link { client_id, reading: None, since: now },
            ) && only_links_changed(*old(self), *final(self)) && (r matches Some(snap) && describes(
                snap,
                *final(self),
            )),
    {
        if self.links.contains_key(mac_addr) {
            return None;
        }
        self.links.insert(copy_str(mac_addr), Link { client_id, reading: None, since: now });
        Some(self.snapshot())
    }

    /// The client of a device's link.
    pub fn client_of(&self, mac_addr: &str) -> (r: Option<u64>)
        ensures
            match r {
                Some(id) => self.links@.contains_key(mac_addr@) && self.links@[mac_addr@].client_id == id,
                None => !self.links@.contains_key(mac_addr@),
            },
    {
        match self.links.get(mac_addr) {
            Some(l) => Some(l.client_id),
            None => None,
        }
    }

    /// Removes a link, handing back its client (to close) and the snapshot. With
    /// `only`, the link goes only while it is still that client's: a read loop
    /// reporting its socket dead must not take down a newer link to the device.
    /// Once the link is gone its readings are no longer current; the cached
    /// advertisement shows in their place.
    pub fn drop_link(&mut self, mac_addr: &str, only: Option<u64>) -> (r: Option<(u64, Snapshot)>)
        ensures
            !link_matches(old(self).links@, mac_addr@, only) ==> r is None && *final(self) == *old(self),
            link_matches(old(self).links@, mac_addr@, only) ==> final(self).links@ == old(self).links@.remove(
                mac_addr@,
            ) && only_links_changed(*old(self), *final(self)) && (r matches Some((id, snap)) && id
                == old(self).links@[mac_addr@].client_id && describes(snap, *final(self))),
    {
        let id = match self.links.get(mac_addr) {
            Some(link) => {
                match only {
                    Some(c) => {
                        if link.client_id != c {
                            return None;
                        }
                    },
                    None => {},
                }
                link.client_id
            },
            None => return None,
        };
        self.links.remove(mac_addr);
        Some((id, self.snapshot()))
    }

    /// Records a battery packet read from the link of `mac_addr` by `client_id`.
    /// A packet read just before a disconnect must not bring back AAP state for a
    /// link that is gone, nor land on a newer one.
    pub fn handle_battery_info(&mut self, info: &BatteryInfo, mac_addr: &str, client_id: u64) -> (r: Option<Snapshot>)
        ensures
            battery_handled(*old(self), *final(self), *info, mac_addr@, client_id, r),
    {
        let since = match self.links.get(mac_addr) {
            Some(link) => {
                if link.client_id != client_id {
                    return None;
                }
                link.since
            },
            None => return None,
        };
        let (device_model, model_name, color, primary_pod) = match self.ble.get(mac_addr) {
            Some(e) => (e.state.device_model, e.state.model_name.clone(), e.state.color, e.state.primary_pod),
            None => match self.links.get(mac_addr) {
                Some(link) => match &link.reading {
                    Some(s) => (s.device_model, s.model_name.clone(), s.color, s.primary_pod),
                    None => (0, String::new(), 0, PodSide::Unknown),
                },
                None => (0, String::new(), 0, PodSide::Unknown),
            },
        };
        let state = PodState {
            source: DataSource::Aap,
            left_battery: match info.left {
                Some(b) => b.level,
                None => None,
            },
            right_battery: match info.right {
                Some(b) => b.level,
                None => None,
            },
            case_battery: match info.case {
                Some(b) => b.level,
                None => None,
            },
            left_charging: match info.left {
                Some(b) => b.is_charging(),
                None => false,
            },
            right_charging: match info.right {
                Some(b) => b.is_charging(),
                None => false,
            },
            case_charging: match info.case {
                Some(b) => b.is_charging(),
                None => false,
            },
            // AAP carries no in-ear, lid or connection-state data.
            left_in_ear: false,
            right_in_ear: false,
            lid_open: None,
            connection_state: None,
            noise_mode: None,
            device_model,
            model_name,
            color,
            primary_pod,
            real_mac: copy_str(mac_addr),
            current_ble_mac: String::new(),
            identified: true,
            last_seen: None,
        };
        assert(battery_state(state, *info, mac_addr@, identity_source(self.ble@, self.links@, mac_addr@)));
        let ghost s = state;
        self.links.insert(copy_str(mac_addr), Link { client_id, reading: Some(state), since });
        assert(battery_state(s, *info, mac_addr@, identity_source(old(self).ble@, old(self).links@, mac_addr@)));
        Some(self.snapshot())
    }

    /// Records a mode the device reported. A repeated report (the startup dump
    /// repeats) changes nothing and is not worth a snapshot.
    pub fn handle_noise_mode(&mut self, mode: NoiseMode, mac_addr: &str) -> (r: Option<Snapshot>)
        ensures
            mode_handled(*old(self), *final(self), mode, mac_addr@, r),
    {
        match self.noise_modes.get(mac_addr) {
            Some(m) => {
                if *m == mode {
                    return None;
                }
            },
            None => {},
        }
        self.noise_modes.insert(copy_str(mac_addr), mode);
        Some(self.snapshot())
    }

    /// Records the mode just set on a device. It is recorded optimistically: the
    /// device's confirmation arrives only sometimes. Without a link (it went
    /// while the command was out) nothing is recorded.
    pub fn record_noise_mode(&mut self, mac_addr: &str, mode: NoiseMode) -> (r: Option<Snapshot>)
        ensures
            !old(self).links@.contains_key(mac_addr@) ==> r is None && *final(self) == *old(self),
            old(self).links@.contains_key(mac_addr@) ==> final(self).noise_modes@ == old(self).noise_modes@.insert(
                mac_addr@,
                mode,
            ) && final(self).ble == old(self).ble && final(self).links == old(self).links
                && final(self).encryption_keys == old(self).encryption_keys && final(self).device_names
                == old(self).device_names && (r matches Some(snap) && describes(snap, *final(self))),
    {
        if !self.links.contains_key(mac_addr) {
            return None;
        }
        self.noise_modes.insert(copy_str(mac_addr), mode);
        Some(self.snapshot())
    }

    /// Takes in a newly received key, returning whether it is new. Keys are
    /// requested on every connection, so this is usually the key already held;
    /// then nothing changes and there is nothing to write to disk.
    pub fn store_encryption_key(&mut self, mac_addr: &str, key: &[u8]) -> (r: bool)
        ensures
            key_stored(*old(self), *final(self), mac_addr@, key@, r),
    {
        match self.encryption_keys.get(mac_addr) {
            Some(k) => {
                if bytes_equal(k.as_slice(), key) {
                    return false;
                }
            },
            None => {},
        }
        self.encryption_keys.insert(copy_str(mac_addr), slice_to_vec(key));
        assert(self.encryption_keys@.map_values(|k: Vec<u8>| k@) =~= old(self).encryption_keys@.map_values(
            |k: Vec<u8>| k@,
        ).insert(mac_addr@, key@));
        true
    }

    /// Replaces the BlueZ names, with a snapshot only when they differ: names are
    /// re-read on every connection event, and an identical map would wake every
    /// consumer for nothing.
    pub fn set_device_names(&mut self, names: StrMap<String>) -> (r: Option<Snapshot>)
        ensures
            old(self).device_names@.map_values(|s: String| s@) == names@.map_values(|s: String| s@) ==> r is None
                && *final(self) == *old(self),
            old(self).device_names@.map_values(|s: String| s@) != names@.map_values(|s: String| s@)
                ==> final(self).device_names == names && final(self).ble == old(self).ble
                && final(self).links == old(self).links && final(self).encryption_keys
                == old(self).encryption_keys && final(self).noise_modes == old(self).noise_modes
                && (r matches Some(snap) && describes(snap, *final(self))),
    {
        if names_equal(&self.device_names, &names) {
            return None;
        }
        self.device_names = names;
        Some(self.snapshot())
    }

    /// Drops expired readings, with a snapshot if any went. Cached readings have to
    /// expire even when nothing advertises - that is exactly when they are on show.
    pub fn expire(&mut self, now: u64) -> (r: Option<Snapshot>)
        ensures
            final(self).ble@ == fresh_entries(old(self).ble@, now),
            final(self).links == old(self).links,
            final(self).encryption_keys == old(self).encryption_keys,
            final(self).device_names == old(self).device_names,
            final(self).noise_modes == old(self).noise_modes,
            r is Some <==> has_stale(old(self).ble@, now),
            r matches Some(snap) ==> describes(snap, *final(self)),
    {
        if !self.prune(now) {
            return None;
        }
        Some(self.snapshot())
    }

    /// Number of devices a snapshot would show.
    pub fn device_count(&self) -> (r: usize)
        ensures
            r == shown_states(self.ble@, self.links@, self.noise_modes@).len(),
    {
        self.states().len()
    }

    pub fn has_encryption_keys(&self) -> (r: bool)
        ensures
            r == (self.encryption_keys@.len() > 0),
    {
        !self.encryption_keys.is_empty()
    }

    /// Number of devices a key is held for.
    pub fn known_key_count(&self) -> (r: usize)
        ensures
            r == self.encryption_keys@.len(),
    {
        self.encryption_keys.len()
    }

    /// Handles one packet read by client `client_id` from the link of `mac_addr`:
    /// its battery levels, a noise control mode the device reported (its startup
    /// dump, or a change made from another device), and its encryption key.
    pub fn handle_packet(&mut self, packet: &[u8], mac_addr: &str, client_id: u64) -> (r: PacketEffects)
        ensures
            exists|mid: Inner, mid2: Inner|
                #[trigger] battery_step(*old(self), mid, packet@, mac_addr@, client_id, r.battery, r.battery_error)
                    && #[trigger] noise_step(mid, mid2, packet@, mac_addr@, r.noise, r.noise_error) && key_step(
                    mid2,
                    *final(self),
                    packet@,
                    mac_addr@,
                    r.new_key,
                    r.key_error,
                ),
    {
        let mut effects = PacketEffects {
            battery: None,
            battery_error: None,
            noise: None,
            noise_error: None,
            new_key: None,
            key_error: None,
        };
        if is_battery_packet(packet) {
            match parse_battery_packet(packet) {
                Ok(info) => {
                    effects.battery = self.handle_battery_info(&info, mac_addr, client_id);
                },
                Err(e) => {
                    effects.battery_error = Some(e);
                },
            }
        }
        let ghost mid = *self;
        if is_noise_mode_packet(packet) {
            match parse_noise_mode_packet(packet) {
                Ok(mode) => {
                    effects.noise = self.handle_noise_mode(mode, mac_addr);
                },
                Err(e) => {
                    effects.noise_error = Some(e);
                },
            }
        }
        let ghost mid2 = *self;
        if is_key_packet(packet) {
            match parse_proximity_keys(packet) {
                Ok(keys) => match find_encryption_key(keys.as_slice()) {
                    Ok(key) => {
                        if self.store_encryption_key(mac_addr, &key) {
                            effects.new_key = Some(key);
                        }
                    },
                    Err(e) => {
                        effects.key_error = Some(e);
                    },
                },
                Err(e) => {
                    effects.key_error = Some(e);
                },
            }
        }
        assert(battery_step(*old(self), mid, packet@, mac_addr@, client_id, effects.battery, effects.battery_error));
        assert(noise_step(mid, mid2, packet@, mac_addr@, effects.noise, effects.noise_error));
        assert(key_step(mid2, *self, packet@, mac_addr@, effects.new_key, effects.key_error));
        effects
    }

    /// A coordinator's state at startup: the keys loaded from disk, nothing else.
    pub fn new(encryption_keys: StrMap<Vec<u8>>) -> (r: Inner)
        ensures
            r.ble@ == Map::<Seq<char>, Entry>::empty(),
            r.links@ == Map::<Seq<char>, Link>::empty(),
            r.encryption_keys == encryption_keys,
            r.device_names@ == Map::<Seq<char>, String>::empty(),
            r.noise_modes@ == Map::<Seq<char>, NoiseMode>::empty(),
    {
        Inner {
            ble: StrMap::new(),
            links: StrMap::new(),
            encryption_keys,
            device_names: StrMap::new(),
            noise_modes: StrMap::new(),
        }
    }

    /// True when a live AAP link makes this device's BLE advertisement redundant.
    /// Per device: every other device's advertisements still count.
    pub fn supersedes_ble(&self, advertising_mac: &str) -> (r: bool)
        ensures
            r == self.links@.contains_key(advertising_mac@),
    {
        self.links.contains_key(advertising_mac)
    }

    /// Drops BLE readings older than their TTL, returning whether any went. This
    /// is what keeps rotating BLE MACs from accumulating forever.
    pub fn prune(&mut self, now: u64) -> (r: bool)
        ensures
            final(self).ble@ == fresh_entries(old(self).ble@, now),
            r == has_stale(old(self).ble@, now),
            final(self).links == old(self).links,
            final(self).encryption_keys == old(self).encryption_keys,
            final(self).device_names == old(self).device_names,
            final(self).noise_modes == old(self).noise_modes,
    {
        let ghost ps = self.ble.pairs();
        let ghost m = self.ble@;
        let n0 = self.ble.len();
        proof {
            lemma_map_of(ps);
            assert(kept_after(m, ps, 0, now) =~= m) by {
                assert forall|k: Seq<char>| m.contains_key(k) implies exists|t: int| 0 <= t < ps.len() && #[trigger] ps[t].0 == k by {
                    assert(has_key(ps, k));
                }
            }
        }
        let mut i: usize = 0;
        let ghost mut j: int = 0;
        let mut removed = false;
        while i < self.ble.len()
            invariant
                n0 == ps.len(),
                distinct_keys(ps),
                m == map_of(ps),
                forall|t: int| 0 <= t < ps.len() ==> #[trigger] m[ps[t].0] == ps[t].1,
                forall|t: int| 0 <= t < ps.len() ==> m.contains_key(#[trigger] ps[t].0),
                0 <= j <= n0,
                i <= j,
                self.ble.pairs().len() == i + (n0 - j),
                forall|t: int| 0 <= t < n0 - j ==> #[trigger] self.ble.pairs()[i + t] == ps[j + t],
                self.ble@ == kept_after(m, ps, j, now),
                removed == exists|t: int| 0 <= t < j && !is_fresh(#[trigger] ps[t].1, now),
                self.links == old(self).links,
                self.encryption_keys == old(self).encryption_keys,
                self.device_names == old(self).device_names,
                self.noise_modes == old(self).noise_modes,
            decreases n0 - j,
        {
            let ghost before = self.ble@;
            let ghost k = ps[j].0;
            assert(self.ble.pairs()[i + 0] == ps[j + 0]);
            let fresh = entry_is_fresh(self.ble.value_at(i), now);
            let ghost prev = self.ble.pairs();
            if fresh {
                i = i + 1;
                proof {
                    assert forall|t: int| 0 <= t < n0 - (j + 1) implies #[trigger] self.ble.pairs()[i + t] == ps[j + 1 + t] by {
                        assert(prev[(i - 1) + (t + 1)] == ps[j + (t + 1)]);
                    }
                    assert(kept_after(m, ps, j, now) =~= kept_after(m, ps, j + 1, now)) by {
                        assert forall|x: Seq<char>| #[trigger] kept_after(m, ps, j, now).contains_key(x) <==> kept_after(m, ps, j + 1, now).contains_key(x) by {
                            if x != k && exists|t: int| j <= t < ps.len() && #[trigger] ps[t].0 == x {
                                let t = choose|t: int| j <= t < ps.len() && #[trigger] ps[t].0 == x;
                                assert(t != j);
                            }
                        }
                    }
                    j = j + 1;
                }
            } else {
                self.ble.remove_at(i);
                removed = true;
                proof {
                    assert(!is_fresh(m[k], now));
                    assert(before.remove(k) =~= kept_after(m, ps, j + 1, now)) by {
                        assert forall|x: Seq<char>| #[trigger] before.remove(k).contains_key(x) <==> kept_after(m, ps, j + 1, now).contains_key(x) by {
                            if x != k && exists|t: int| j <= t < ps.len() && #[trigger] ps[t].0 == x {
                                let t = choose|t: int| j <= t < ps.len() && #[trigger] ps[t].0 == x;
                                assert(t != j);
                            }
                            if x == k && exists|t: int| j + 1 <= t < ps.len() && #[trigger] ps[t].0 == x {
                                let t = choose|t: int| j + 1 <= t < ps.len() && #[trigger] ps[t].0 == x;
                                assert(ps[t].0 != ps[j].0);
                            }
                        }
                    }
                    prev.remove_ensures(i as int);
                    assert forall|t: int| 0 <= t < n0 - (j + 1) implies #[trigger] self.ble.pairs()[i + t] == ps[j + 1 + t] by {
                        assert(prev[i + (t + 1)] == ps[j + (t + 1)]);
                    }
                    j = j + 1;
                }
            }
        }
        proof {
            assert(kept_after(m, ps, j, now) =~= fresh_entries(m, now));
            if has_stale(m, now) {
                let k = choose|k: Seq<char>| #[trigger] m.contains_key(k) && !is_fresh(m[k], now);
                let t = choose|t: int| 0 <= t < ps.len() && ps[t].0 == k;
                assert(!is_fresh(ps[t].1, now));
            }
            if removed {
                let t = choose|t: int| 0 <= t < j && !is_fresh(#[trigger] ps[t].1, now);
                assert(m.contains_key(ps[t].0));
            }
        }
        removed
    }
}

/// While a device has a link it shows the link's reading, with the mode it
/// reported, and never its cached advertisement; before the first battery
/// packet it shows nothing.
pub proof fn lemma_link_hides_the_advertisement(
    ble: Map<Seq<char>, Entry>,
    links: Map<Seq<char>, Link>,
    modes: Map<Seq<char>, NoiseMode>,
    mac: Seq<char>,
)
    requires
        links.contains_key(mac),
    ensures
        shown_states(ble, links, modes).contains_key(mac) <==> links[mac].reading is Some,
        links[mac].reading matches Some(s) ==> shown_states(ble, links, modes)[mac] == with_noise_mode(
            s,
            modes.get(mac),
        ),
{
}

/// When a device's link goes, its cached advertisement shows at once, stamped
/// with when it arrived.
pub proof fn lemma_disconnect_shows_the_cached_advertisement(
    ble: Map<Seq<char>, Entry>,
    links: Map<Seq<char>, Link>,
    modes: Map<Seq<char>, NoiseMode>,
    mac: Seq<char>,
)
    requires
        ble.contains_key(mac),
    ensures
        shown_states(ble, links.remove(mac), modes).contains_key(mac),
        shown_states(ble, links.remove(mac), modes)[mac] == with_last_seen(ble[mac].state, ble[mac].last_seen),
        shown_states(ble, links.remove(mac), modes)[mac].last_seen == Some(ble[mac].last_seen),
{
}

/// Links are per device: closing one device's link changes no other device's
/// state.
pub proof fn lemma_links_are_per_device(
    ble: Map<Seq<char>, Entry>,
    links: Map<Seq<char>, Link>,
    modes: Map<Seq<char>, NoiseMode>,
    closed: Seq<char>,
    other: Seq<char>,
)
    requires
        closed != other,
    ensures
        shown_states(ble, links.remove(closed), modes).contains_key(other) <==> shown_states(
            ble,
            links,
            modes,
        ).contains_key(other),
        shown_states(ble, links, modes).contains_key(other) ==> shown_states(ble, links.remove(closed), modes)[other]
            == shown_states(ble, links, modes)[other],
{
}

/// A noise control mode shows only for a device with a link, and it is the mode
/// reported for that device - provided no cached advertisement carries one, which
/// holds of every state an advertisement makes (see `advertised_state`).
pub proof fn lemma_mode_only_for_linked_devices(
    ble: Map<Seq<char>, Entry>,
    links: Map<Seq<char>, Link>,
    modes: Map<Seq<char>, NoiseMode>,
    mac: Seq<char>,
)
    requires
        forall|k: Seq<char>| #[trigger] ble.contains_key(k) ==> ble[k].state.noise_mode is None,
        shown_states(ble, links, modes).contains_key(mac),
        shown_states(ble, links, modes)[mac].noise_mode is Some,
    ensures
        links.contains_key(mac),
        shown_states(ble, links, modes)[mac].noise_mode == modes.get(mac),
{
}

/// After a prune at `now` every reading left is younger than its TTL, so the
/// readings under rotating random MACs never outnumber the advertisements of
/// the last `DEVICE_TTL`.
pub proof fn lemma_pruned_readings_are_recent(ble: Map<Seq<char>, Entry>, now: u64, mac: Seq<char>)
    requires
        fresh_entries(ble, now).contains_key(mac),
    ensures
        ble.contains_key(mac),
        fresh_entries(ble, now)[mac] == ble[mac],
        age(now, ble[mac].last_seen) < ttl_for(ble[mac].state.identified),
        !ble[mac].state.identified ==> age(now, ble[mac].last_seen) < DEVICE_TTL,
{
}

/// A second prune at the same moment drops nothing: every reading the first one
/// kept is fresh, so it keeps them all again and reports that none went.
pub proof fn lemma_prune_is_idempotent(ble: Map<Seq<char>, Entry>, now: u64)
    ensures
        fresh_entries(fresh_entries(ble, now), now) == fresh_entries(ble, now),
        !has_stale(fresh_entries(ble, now), now),
{
    assert(fresh_entries(fresh_entries(ble, now), now) =~= fresh_entries(ble, now));
}

/// Readings under any two different MACs arrived at least `gap` apart.
pub open spec fn spaced_by(ble: Map<Seq<char>, Entry>, gap: int) -> bool {
    forall|a: Seq<char>, b: Seq<char>|
        #![trigger ble[a], ble[b]]
        ble.contains_key(a) && ble.contains_key(b) && a != b ==> (ble[a].last_seen - ble[b].last_seen >= gap
            || ble[b].last_seen - ble[a].last_seen >= gap)
}

/// Readings `gap` apart that all fall in the window `(lo, hi]` number at most `c`
/// when `c` gaps span the window.
proof fn lemma_spaced_in_window(
    ble: Map<Seq<char>, Entry>,
    keys: Set<Seq<char>>,
    gap: int,
    lo: int,
    hi: int,
    c: nat,
)
    requires
        gap > 0,
        keys.finite(),
        keys.subset_of(ble.dom()),
        spaced_by(ble, gap),
        forall|k: Seq<char>| keys.contains(k) ==> lo < #[trigger] ble[k].last_seen <= hi,
        hi - lo <= c * gap,
    ensures
        keys.len() <= c,
    decreases c,
{
    if c == 0 {
        assert(keys =~= Set::<Seq<char>>::empty()) by {
            assert forall|k: Seq<char>| !keys.contains(k) by {
                if keys.contains(k) {
                    assert(lo < ble[k].last_seen <= hi);
                }
            }
        }
    } else {
        let top = keys.filter(|k: Seq<char>| ble[k].last_seen > hi - gap);
        let low = keys.filter(|k: Seq<char>| ble[k].last_seen <= hi - gap);
        assert(top.subset_of(keys));
        assert(low.subset_of(keys));
        vstd::set_lib::lemma_set_subset_finite(keys, top);
        vstd::set_lib::lemma_set_subset_finite(keys, low);
        assert((c - 1) * gap == c * gap - gap) by (nonlinear_arith);
        lemma_spaced_in_window(ble, low, gap, lo, hi - gap, (c - 1) as nat);
        if top.len() > 0 {
            vstd::set_lib::lemma_set_empty_equivalency_len(top);
            let a = top.choose();
            assert(top.remove(a) =~= Set::<Seq<char>>::empty()) by {
                assert forall|b: Seq<char>| !top.remove(a).contains(b) by {
                    if top.remove(a).contains(b) {
                        assert(ble[a].last_seen > hi - gap && ble[b].last_seen > hi - gap);
                        assert(ble[a].last_seen <= hi && ble[b].last_seen <= hi);
                    }
                }
            }
            vstd::set::axiom_set_remove_len(top, a);
        }
        assert(keys =~= top + low);
        assert(top.disjoint(low));
        vstd::set_lib::lemma_set_disjoint_lens(top, low);
    }
}

/// Rotating random MACs cannot pile up. When every cached reading is
/// unidentified, none is dated after `now`, and any two arrived at least `gap`
/// apart, a prune at `now` keeps no more than `c` of them, for any `c` gaps that
/// span `DEVICE_TTL`: with a new MAC every 30 s, at most four.
pub proof fn lemma_rotating_macs_stay_bounded(ble: Map<Seq<char>, Entry>, now: u64, gap: int, c: nat)
    requires
        ble.dom().finite(),
        gap > 0,
        c * gap >= DEVICE_TTL,
        forall|k: Seq<char>| #[trigger] ble.contains_key(k) ==> !ble[k].state.identified && ble[k].last_seen <= now,
        spaced_by(ble, gap),
    ensures
        fresh_entries(ble, now).len() <= c,
{
    let kept = fresh_entries(ble, now);
    assert(kept.dom().subset_of(ble.dom()));
    vstd::set_lib::lemma_set_subset_finite(ble.dom(), kept.dom());
    assert(spaced_by(kept, gap));
    assert forall|k: Seq<char>| kept.dom().contains(k) implies now - DEVICE_TTL < #[trigger] kept[k].last_seen <= now by {
        assert(ble.contains_key(k));
    }
    lemma_spaced_in_window(kept, kept.dom(), gap, now - DEVICE_TTL, now as int, c);
}

/// An advertisement is filed under the device it identifies as: once a stored
/// key names the real MAC `m`, the reading is stored under `m` (marked
/// identified, with `m` as its real MAC and the advertising address as its
/// current one), whatever address it came from, and no entry appears under the
/// rotating address; the device's own AAP link then supersedes it. Without an
/// identification it is stored under the address it came from.
pub proof fn lemma_advertisement_filed_under_identity(
    before: Inner,
    after: Inner,
    d: ProximityData,
    real_mac: Option<Seq<char>>,
    ble_mac: Seq<char>,
    now: u64,
    r: Option<Snapshot>,
)
    requires
        recorded(before, after, d, real_mac, ble_mac, now, r),
    ensures
        match real_mac {
            Some(m) => {
                &&& after.ble@.contains_key(m)
                &&& after.ble@[m].state.real_mac@ == m
                &&& after.ble@[m].state.identified
                &&& after.ble@[m].state.current_ble_mac@ == ble_mac
                &&& after.ble@[m].last_seen == now
                &&& after.ble@[m].state.left_battery == d.left_battery
                &&& after.ble@[m].state.right_battery == d.right_battery
                &&& after.ble@[m].state.case_battery == d.case_battery
                &&& forall|k: Seq<char>| k != m && #[trigger] after.ble@.contains_key(k) ==> before.ble@.contains_key(k)
                &&& before.links@.contains_key(m) && !has_stale(before.ble@, now) ==> r is None
                &&& !before.links@.contains_key(m) ==> r is Some
            },
            None => {
                &&& after.ble@.contains_key(ble_mac)
                &&& !after.ble@[ble_mac].state.identified
                &&& after.ble@[ble_mac].state.real_mac@.len() == 0
                &&& after.ble@[ble_mac].state.current_ble_mac@ == ble_mac
                &&& after.ble@[ble_mac].last_seen == now
                &&& forall|k: Seq<char>| k != ble_mac && #[trigger] after.ble@.contains_key(k) ==> before.ble@.contains_key(k)
            },
        },
{
    let key = filing_key(real_mac, ble_mac);
    let s = choose|s: PodState|
        #[trigger] advertised_state(s, d, real_mac, ble_mac) && after.ble@ == fresh_entries(
            before.ble@.insert(key, Entry { state: s, last_seen: now }),
            now,
        ) && (r is None <==> before.links@.contains_key(key) && !has_stale(
            before.ble@.insert(key, Entry { state: s, last_seen: now }),
            now,
        ));
    let ins = before.ble@.insert(key, Entry { state: s, last_seen: now });
    assert(is_fresh(ins[key], now));
    if !has_stale(before.ble@, now) {
        assert(!has_stale(ins, now)) by {
            if has_stale(ins, now) {
                let k = choose|k: Seq<char>| #[trigger] ins.contains_key(k) && !is_fresh(ins[k], now);
                assert(before.ble@.contains_key(k));
            }
        }
    }
}

/// An AAP battery packet taken for a matching link becomes that link's reading
/// and what the snapshot shows for the device: each of the left pod, right pod
/// and case shows the level its entry in the packet reports (none when the
/// packet has no entry for it), and charging exactly when that entry says so.
pub proof fn lemma_aap_reading_carries_the_packet(
    before: Inner,
    after: Inner,
    info: BatteryInfo,
    mac: Seq<char>,
    id: u64,
    r: Option<Snapshot>,
)
    requires
        battery_handled(before, after, info, mac, id, r),
        before.links@.contains_key(mac),
        before.links@[mac].client_id == id,
    ensures
        after.links@.contains_key(mac),
        after.links@[mac].client_id == id,
        r matches Some(snap) && snap.states@.contains_key(mac) && {
            let s = snap.states@[mac];
            &&& s.source == DataSource::Aap
            &&& s.left_battery == (match info.left {
                Some(b) => b.level,
                None => None,
            })
            &&& s.right_battery == (match info.right {
                Some(b) => b.level,
                None => None,
            })
            &&& s.case_battery == (match info.case {
                Some(b) => b.level,
                None => None,
            })
            &&& s.left_charging == (info.left matches Some(b) && b.status == Status::Charging)
            &&& s.right_charging == (info.right matches Some(b) && b.status == Status::Charging)
            &&& s.case_charging == (info.case matches Some(b) && b.status == Status::Charging)
        },
{
    assert(link_matches(before.links@, mac, Some(id)));
    let s = choose|s: PodState|
        #[trigger] battery_state(s, info, mac, identity_source(before.ble@, before.links@, mac))
            && after.links@ == before.links@.insert(
            mac,
            Link { client_id: id, reading: Some(s), since: before.links@[mac].since },
        );
    let snap = r->0;
    assert(live_states(after.links@, after.noise_modes@).contains_key(mac));
    assert(snap.states@[mac] == with_noise_mode(s, after.noise_modes@.get(mac)));
}

/// A key received from a device becomes that device's key, whether or not it was
/// held already, and leaves every other device's key as it was; it is reported
/// as new exactly when the device held no key or a different one.
pub proof fn lemma_received_key_is_the_devices_key(before: Inner, after: Inner, mac: Seq<char>, key: Seq<u8>, r: bool)
    requires
        key_stored(before, after, mac, key, r),
    ensures
        after.encryption_keys@.contains_key(mac),
        after.encryption_keys@[mac]@ == key,
        forall|other: Seq<char>|
            other != mac ==> (#[trigger] after.encryption_keys@.contains_key(other) == before.encryption_keys@.contains_key(
                other,
            ) && (before.encryption_keys@.contains_key(other) ==> after.encryption_keys@[other]@
                == before.encryption_keys@[other]@)),
        r == !(before.encryption_keys@.contains_key(mac) && before.encryption_keys@[mac]@ == key),
{
    if r {
        let f = |k: Vec<u8>| k@;
        let a = after.encryption_keys@.map_values(f);
        let b = before.encryption_keys@.map_values(f);
        assert(a.contains_key(mac));
        assert(after.encryption_keys@.dom() =~= a.dom());
        assert(a[mac] == key);
        assert forall|other: Seq<char>|
            other != mac implies (#[trigger] after.encryption_keys@.contains_key(other)
            == before.encryption_keys@.contains_key(other) && (before.encryption_keys@.contains_key(other)
            ==> after.encryption_keys@[other]@ == before.encryption_keys@[other]@)) by {
            assert(a.contains_key(other) == after.encryption_keys@.contains_key(other));
            assert(b.contains_key(other) == before.encryption_keys@.contains_key(other));
            if before.encryption_keys@.contains_key(other) {
                assert(a[other] == b[other]);
            }
        }
    }
}

/// A reported noise control mode becomes the device's recorded mode, and no
/// other device's mode changes.
pub proof fn lemma_reported_mode_is_recorded(before: Inner, after: Inner, mode: NoiseMode, mac: Seq<char>, r: Option<Snapshot>)
    requires
        mode_handled(before, after, mode, mac, r),
    ensures
        after.noise_modes@.get(mac) == Some(mode),
        forall|other: Seq<char>| other != mac ==> #[trigger] after.noise_modes@.get(other) == before.noise_modes@.get(other),
        r is Some <==> before.noise_modes@.get(mac) != Some(mode),
{
}

} // verus!
