//! What the window shows: every line of text and every choice the GTK side
//! renders, computed from snapshots.
use vstd::prelude::*;
use crate::aap::noise::NoiseMode;
use crate::ble::parser::{connection_state_name, decode_connection_state};
use crate::podstate::{DataSource, PodState, Snapshot};
use crate::strmap::{StrMap, distinct_keys, in_lex_order, lemma_map_of_prefix, lists_keys_of, lists_mac, map_of};
use crate::text::{copy_str, decimal, hex4, push_decimal, push_hex4, str_eq, uppercase};

verus! {

/// Anything heard within this long (milliseconds) counts as advertising now.
pub const RECENT_MS: u64 = 60_000;

/// How long ago a BLE reading was heard, in whole minutes: the cache holds
/// readings for half an hour, and the display is redrawn every 30 seconds.
pub open spec fn last_seen_line(age_ms: u64) -> Seq<char> {
    if age_ms < RECENT_MS {
        "Last seen just now"@
    } else {
        "Last seen "@ + decimal((age_ms / 60_000) as nat) + " min ago"@
    }
}

pub fn last_seen_text(age_ms: u64) -> (r: String)
    ensures
        r@ == last_seen_line(age_ms),
{
    if age_ms < RECENT_MS {
        return String::from_str("Last seen just now");
    }
    let mut s = String::from_str("Last seen ");
    push_decimal(&mut s, age_ms / 60_000);
    s.append(" min ago");
    s
}

/// The device's name in the status line: the decoded model, the raw id for a
/// model without a name, or just "AirPods" when nothing identified it yet.
pub open spec fn model_text(s: PodState) -> Seq<char> {
    if s.model_name@.len() > 0 {
        s.model_name@
    } else if s.device_model != 0 {
        "Unknown (0x"@ + hex4(s.device_model) + ")"@
    } else {
        "AirPods"@
    }
}

/// The lid segment; absent unless the earbuds are in the case.
pub open spec fn lid_text(lid: Option<bool>) -> Seq<char> {
    match lid {
        Some(true) => " • Lid: Open"@,
        Some(false) => " • Lid: Closed"@,
        None => Seq::empty(),
    }
}

/// What the AirPods are doing, which only BLE reports.
pub open spec fn activity_text(state: Option<u8>) -> Seq<char> {
    match state {
        Some(c) => " • "@ + connection_state_name(c),
        None => Seq::empty(),
    }
}

/// Which protocol produced the numbers.
pub open spec fn source_text(source: DataSource) -> Seq<char> {
    match source {
        DataSource::Aap => "AAP"@,
        DataSource::Ble => "BLE"@,
        DataSource::Unknown => "unknown"@,
    }
}

/// The one-line summary under the battery display.
pub open spec fn status_text(s: PodState) -> Seq<char> {
    model_text(s) + lid_text(s.lid_open) + activity_text(s.connection_state) + " • Source: "@ + source_text(
        s.source,
    )
}

pub fn status_line(state: &PodState) -> (r: String)
    ensures
        r@ == status_text(*state),
{
    let mut s = if state.model_name.as_str().unicode_len() > 0 {
        state.model_name.clone()
    } else if state.device_model != 0 {
        let mut m = String::from_str("Unknown (0x");
        push_hex4(&mut m, state.device_model);
        m.append(")");
        m
    } else {
        String::from_str("AirPods")
    };
    match state.lid_open {
        Some(true) => s.append(" • Lid: Open"),
        Some(false) => s.append(" • Lid: Closed"),
        None => {},
    }
    match state.connection_state {
        Some(c) => {
            s.append(" • ");
            let name = decode_connection_state(c);
            s.append(name.as_str());
        },
        None => {},
    }
    s.append(" • Source: ");
    match state.source {
        DataSource::Aap => s.append("AAP"),
        DataSource::Ble => s.append("BLE"),
        DataSource::Unknown => s.append("unknown"),
    }
    assert(s@ =~= status_text(*state));
    s
}

/// The marks after a level: a bolt while charging, an ear while worn.
pub open spec fn flags_text(charging: bool, in_ear: bool) -> Seq<char> {
    (if charging {
        " ⚡"@
    } else {
        Seq::empty()
    }) + (if in_ear {
        " 👂"@
    } else {
        Seq::empty()
    })
}

pub fn battery_flags(charging: bool, in_ear: bool) -> (r: String)
    ensures
        r@ == flags_text(charging, in_ear),
{
    let mut s = String::new();
    if charging {
        s.append(" ⚡");
    }
    if in_ear {
        s.append(" 👂");
    }
    assert(s@ =~= flags_text(charging, in_ear));
    s
}

/// A level with its marks, or "--" when unknown.
pub open spec fn level_text(level: Option<u8>, suffix: Seq<char>) -> Seq<char> {
    match level {
        Some(v) => decimal(v as nat) + "%"@ + suffix,
        None => "--"@,
    }
}

pub fn battery_text(level: Option<u8>, suffix: &str) -> (r: String)
    ensures
        r@ == level_text(level, suffix@),
{
    match level {
        Some(v) => {
            let mut s = String::new();
            push_decimal(&mut s, v as u64);
            s.append("%");
            s.append(suffix);
            assert(s@ =~= level_text(level, suffix@));
            s
        },
        None => String::from_str("--"),
    }
}

/// The texts of the battery display for one device.
pub struct BatteryDisplay {
    pub left: String,
    pub right: String,
    pub case: String,
    pub status: String,
    /// How old the BLE reading is; `None` for AAP, which is always live.
    pub last_seen: Option<String>,
}

/// Time from `then` to `now`, zero when `then` is later.
pub open spec fn elapsed(now: u64, then: u64) -> u64 {
    if now >= then {
        (now - then) as u64
    } else {
        0
    }
}

/// The battery display shows `state` as read at `now`.
pub open spec fn displays(d: BatteryDisplay, state: PodState, now: u64) -> bool {
    &&& d.left@ == level_text(state.left_battery, flags_text(state.left_charging, state.left_in_ear))
    &&& d.right@ == level_text(state.right_battery, flags_text(state.right_charging, state.right_in_ear))
    &&& d.case@ == level_text(state.case_battery, flags_text(state.case_charging, false))
    &&& d.status@ == status_text(state)
    &&& match state.last_seen {
        Some(t) => d.last_seen matches Some(l) && l@ == last_seen_line(elapsed(now, t)),
        None => d.last_seen is None,
    }
}

pub fn battery_display(state: &PodState, now: u64) -> (r: BatteryDisplay)
    ensures
        displays(r, *state, now),
{
    let left_flags = battery_flags(state.left_charging, state.left_in_ear);
    let right_flags = battery_flags(state.right_charging, state.right_in_ear);
    let case_flags = battery_flags(state.case_charging, false);
    BatteryDisplay {
        left: battery_text(state.left_battery, left_flags.as_str()),
        right: battery_text(state.right_battery, right_flags.as_str()),
        case: battery_text(state.case_battery, case_flags.as_str()),
        status: status_line(state),
        last_seen: match state.last_seen {
            Some(t) => Some(last_seen_text(if now >= t { now - t } else { 0 })),
            None => None,
        },
    }
}

/// What the Control tab shows for the selected device.
pub enum DeviceView {
    /// A device with a state. The controls are live only over AAP: over BLE the
    /// state can be read but the device not commanded.
    Shown { display: BatteryDisplay, interactive: bool, noise_mode: Option<NoiseMode> },
    /// A known device nothing has been heard from yet, or none selected; the
    /// status line tells a live link that has not reported from a device out of
    /// range.
    Empty { status: String },
}

/// `view` is what the Control tab shows for `mac` at `now`.
pub open spec fn device_view_is(view: DeviceView, snapshot: Snapshot, mac: Option<Seq<char>>, now: u64) -> bool {
    let state = match mac {
        Some(m) => if snapshot.states@.contains_key(m) {
            Some(snapshot.states@[m])
        } else {
            None
        },
        None => None,
    };
    let connected = match mac {
        Some(m) => lists_mac(snapshot.connected_macs@, m),
        None => false,
    };
    match state {
        Some(s) => view matches DeviceView::Shown { display, interactive, noise_mode } && displays(display, s, now)
            && interactive == (s.source == DataSource::Aap) && noise_mode == s.noise_mode,
        None => view matches DeviceView::Empty { status } && status@ == (if connected {
            "Connected • waiting for data"@
        } else {
            "No recent data"@
        }),
    }
}

pub fn device_view(snapshot: &Snapshot, mac: Option<&str>, now: u64) -> (r: DeviceView)
    ensures
        device_view_is(
            r,
            *snapshot,
            match mac {
                Some(m) => Some(m@),
                None => None,
            },
            now,
        ),
{
    let state = match mac {
        Some(m) => snapshot.states.get(m),
        None => None,
    };
    match state {
        Some(s) => DeviceView::Shown {
            display: battery_display(s, now),
            interactive: match s.source {
                DataSource::Aap => true,
                _ => false,
            },
            noise_mode: s.noise_mode,
        },
        None => {
            let connected = match mac {
                Some(m) => snapshot.is_connected(m),
                None => false,
            };
            DeviceView::Empty {
                status: if connected {
                    String::from_str("Connected • waiting for data")
                } else {
                    String::from_str("No recent data")
                },
            }
        },
    }
}

/// The name a device goes by in the switcher, in descending order of
/// usefulness: its BlueZ alias, the model decoded from BLE, or none.
pub open spec fn name_for(snapshot: Snapshot, mac: Seq<char>) -> Option<Seq<char>> {
    if snapshot.device_names@.contains_key(uppercase(mac)) {
        Some(snapshot.device_names@[uppercase(mac)]@)
    } else if snapshot.states@.contains_key(mac) && snapshot.states@[mac].model_name@.len() > 0 {
        Some(snapshot.states@[mac].model_name@)
    } else {
        None
    }
}

/// How many of the names are `x`.
pub open spec fn count_of(names: Seq<Option<Seq<char>>>, x: Option<Seq<char>>) -> nat
    decreases names.len(),
{
    if names.len() == 0 {
        0
    } else {
        count_of(names.drop_last(), x) + (if names.last() == x {
            1nat
        } else {
            0nat
        })
    }
}

/// A switcher entry: the name when it is unique, the name with the MAC when two
/// devices share it, the bare MAC without a name.
pub open spec fn label_for(names: Seq<Option<Seq<char>>>, name: Option<Seq<char>>, mac: Seq<char>) -> Seq<char> {
    match name {
        Some(n) => if count_of(names, name) == 1 {
            n
        } else {
            n + " ("@ + mac + ")"@
        },
        None => mac,
    }
}

fn name_of(snapshot: &Snapshot, mac: &str) -> (r: Option<String>)
    ensures
        match (r, name_for(*snapshot, mac@)) {
            (Some(a), Some(b)) => a@ == b,
            (None, None) => true,
            _ => false,
        },
{
    match snapshot.device_name(mac) {
        Some(n) => Some(copy_str(n)),
        None => match snapshot.states.get(mac) {
            Some(s) => if s.model_name.as_str().unicode_len() > 0 {
                Some(s.model_name.clone())
            } else {
                None
            },
            None => None,
        },
    }
}

pub open spec fn opt_string_view(o: Option<String>) -> Option<Seq<char>> {
    match o {
        Some(s) => Some(s@),
        None => None,
    }
}

fn same_name(a: &Option<String>, b: &Option<String>) -> (r: bool)
    ensures
        r == (opt_string_view(*a) == opt_string_view(*b)),
{
    match (a, b) {
        (Some(x), Some(y)) => str_eq(x.as_str(), y.as_str()),
        (None, None) => true,
        _ => false,
    }
}

/// The labels of the device switcher, one per MAC.
pub fn device_labels(macs: &Vec<String>, snapshot: &Snapshot) -> (r: Vec<String>)
    ensures
        r@.len() == macs@.len(),
        forall|i: int|
            0 <= i < macs@.len() ==> (#[trigger] r@[i])@ == label_for(
                macs@.map_values(|m: String| name_for(*snapshot, m@)),
                name_for(*snapshot, macs@[i]@),
                macs@[i]@,
            ),
{
    let ghost all = macs@.map_values(|m: String| name_for(*snapshot, m@));
    let mut names: Vec<Option<String>> = Vec::new();
    let mut i: usize = 0;
    while i < macs.len()
        invariant
            i <= macs@.len(),
            all == macs@.map_values(|m: String| name_for(*snapshot, m@)),
            names@.len() == i,
            forall|j: int| 0 <= j < i ==> opt_string_view(#[trigger] names@[j]) == all[j],
        decreases macs@.len() - i,
    {
        names.push(name_of(snapshot, macs[i].as_str()));
        i = i + 1;
    }
    let mut out: Vec<String> = Vec::new();
    let mut k: usize = 0;
    while k < macs.len()
        invariant
            k <= macs@.len(),
            names@.len() == macs@.len(),
            all.len() == macs@.len(),
            all == macs@.map_values(|m: String| name_for(*snapshot, m@)),
            forall|j: int| 0 <= j < macs@.len() ==> opt_string_view(#[trigger] names@[j]) == all[j],
            out@.len() == k,
            forall|j: int|
                0 <= j < k ==> (#[trigger] out@[j])@ == label_for(all, all[j], macs@[j]@),
        decreases macs@.len() - k,
    {
        match &names[k] {
            Some(name) => {
                let mut count: usize = 0;
                let mut t: usize = 0;
                while t < names.len()
                    invariant
                        t <= names@.len(),
                        names@.len() == macs@.len(),
                        all.len() == macs@.len(),
                        forall|j: int| 0 <= j < macs@.len() ==> opt_string_view(#[trigger] names@[j]) == all[j],
                        k < names@.len(),
                        count == count_of(all.subrange(0, t as int), all[k as int]),
                        count <= t,
                    decreases names@.len() - t,
                {
                    assert(all.subrange(0, t + 1).drop_last() =~= all.subrange(0, t as int));
                    if same_name(&names[t], &names[k]) {
                        count = count + 1;
                    }
                    t = t + 1;
                }
                assert(all.subrange(0, t as int) =~= all);
                if count == 1 {
                    out.push(name.clone());
                } else {
                    let mut s = name.clone();
                    s.append(" (");
                    s.append(macs[k].as_str());
                    s.append(")");
                    out.push(s);
                }
            },
            None => {
                out.push(macs[k].clone());
            },
        }
        k = k + 1;
    }
    out
}

/// The index of the first string in `v` that `macs` lists.
pub open spec fn first_listed(v: Seq<String>, macs: Seq<String>) -> Option<int>
    decreases v.len(),
{
    if v.len() == 0 {
        None
    } else {
        match first_listed(v.drop_last(), macs) {
            Some(i) => Some(i),
            None => if lists_mac(macs, v.last()@) {
                Some(v.len() - 1)
            } else {
                None
            },
        }
    }
}

/// The switcher's selection after an update: the current device while it is
/// still listed, else the listed device on the longest link, else the first
/// listed.
pub open spec fn chosen_device(current: Option<Seq<char>>, macs: Seq<String>, connected: Seq<String>) -> Option<Seq<char>> {
    match current {
        Some(c) if lists_mac(macs, c) => Some(c),
        _ => match first_listed(connected, macs) {
            Some(i) => Some(connected[i]@),
            None => if macs.len() > 0 {
                Some(macs[0]@)
            } else {
                None
            },
        },
    }
}

/// True when `macs` lists `mac`.
pub fn lists(macs: &Vec<String>, mac: &str) -> (r: bool)
    ensures
        r == lists_mac(macs@, mac@),
{
    let mut i: usize = 0;
    while i < macs.len()
        invariant
            i <= macs@.len(),
            forall|j: int| 0 <= j < i ==> #[trigger] macs@[j]@ != mac@,
        decreases macs@.len() - i,
    {
        if str_eq(macs[i].as_str(), mac) {
            return true;
        }
        i = i + 1;
    }
    false
}

pub fn choose_device(current: Option<&str>, macs: &Vec<String>, connected: &Vec<String>) -> (r: Option<String>)
    ensures
        opt_string_view(r) == chosen_device(
            match current {
                Some(c) => Some(c@),
                None => None,
            },
            macs@,
            connected@,
        ),
{
    match current {
        Some(c) => {
            if lists(macs, c) {
                return Some(copy_str(c));
            }
        },
        None => {},
    }
    let mut j: usize = 0;
    assert(connected@.subrange(0, 0) =~= Seq::<String>::empty());
    while j < connected.len()
        invariant
            j <= connected@.len(),
            first_listed(connected@.subrange(0, j as int), macs@) is None,
            match current {
                Some(c) => !lists_mac(macs@, c@),
                None => true,
            },
        decreases connected@.len() - j,
    {
        assert(connected@.subrange(0, j + 1).drop_last() =~= connected@.subrange(0, j as int));
        if lists(macs, connected[j].as_str()) {
            proof {
                assert(connected@.subrange(0, j + 1).last() == connected@[j as int]);
                assert(first_listed(connected@.subrange(0, j + 1), macs@) == Some(j as int));
                lemma_first_listed_extends(connected@, macs@, j as int + 1);
            }
            let r = connected[j].clone();
            assert(r@ == connected@[j as int]@);
            return Some(r);
        }
        j = j + 1;
    }
    proof {
        assert(connected@.subrange(0, j as int) =~= connected@);
    }
    if macs.len() > 0 {
        Some(macs[0].clone())
    } else {
        None
    }
}

/// Once a prefix has a listed string, the whole list's first listed one is it.
pub proof fn lemma_first_listed_extends(v: Seq<String>, macs: Seq<String>, n: int)
    requires
        0 <= n <= v.len(),
        first_listed(v.subrange(0, n), macs) is Some,
    ensures
        first_listed(v, macs) == first_listed(v.subrange(0, n), macs),
    decreases v.len() - n,
{
    if n < v.len() {
        assert(v.subrange(0, n + 1).drop_last() =~= v.subrange(0, n));
        lemma_first_listed_extends(v, macs, n + 1);
    } else {
        assert(v.subrange(0, n) =~= v);
    }
}

/// The rows of the Development section: every device a key is held for, in key
/// order, then every other device heard advertising, sorted. The flag is whether
/// a key is held.
pub fn device_entries(snapshot: &Snapshot) -> (r: Vec<(String, bool)>)
    ensures
        r@.len() >= snapshot.known_keys@.len(),
        forall|i: int|
            0 <= i < snapshot.known_keys@.len() ==> (#[trigger] r@[i]).0@ == snapshot.known_keys@[i]@ && r@[i].1,
        lists_keys_of(
            r@.subrange(snapshot.known_keys@.len() as int, r@.len() as int).map_values(|e: (String, bool)| e.0),
            unknown_states(*snapshot),
        ),
        in_lex_order(
            r@.subrange(snapshot.known_keys@.len() as int, r@.len() as int).map_values(|e: (String, bool)| e.0),
        ),
        forall|i: int| snapshot.known_keys@.len() <= i < r@.len() ==> !(#[trigger] r@[i]).1,
{
    let mut out: Vec<(String, bool)> = Vec::new();
    let nk = snapshot.known_keys.len();
    let mut i: usize = 0;
    while i < nk
        invariant
            nk == snapshot.known_keys@.len(),
            i <= nk,
            out@.len() == i,
            forall|j: int| 0 <= j < i ==> (#[trigger] out@[j]).0@ == snapshot.known_keys@[j]@ && out@[j].1,
        decreases nk - i,
    {
        out.push((snapshot.known_keys[i].clone(), true));
        i = i + 1;
    }
    let mut unknown: StrMap<bool> = StrMap::new();
    let n = snapshot.states.len();
    let ghost ps = snapshot.states.pairs();
    let mut k: usize = 0;
    assert(ps.subrange(0, 0) =~= Seq::<(Seq<char>, PodState)>::empty());
    assert(unknown@.dom() =~= unknown_among(map_of(ps.subrange(0, 0)), snapshot.known_keys@));
    while k < n
        invariant
            n == ps.len(),
            ps == snapshot.states.pairs(),
            distinct_keys(ps),
            k <= n,
            unknown@.dom() == unknown_among(map_of(ps.subrange(0, k as int)), snapshot.known_keys@),
        decreases n - k,
    {
        proof {
            lemma_map_of_prefix(ps, k as int);
        }
        let mac = snapshot.states.key_at(k);
        if !lists(&snapshot.known_keys, mac.as_str()) {
            unknown.insert(mac.clone(), false);
        }
        assert(unknown@.dom() =~= unknown_among(map_of(ps.subrange(0, k + 1)), snapshot.known_keys@));
        k = k + 1;
    }
    assert(ps.subrange(0, n as int) =~= ps);
    let sorted = unknown.sorted_keys();
    let ghost base = out@;
    let mut t: usize = 0;
    while t < sorted.len()
        invariant
            t <= sorted@.len(),
            out@.len() == nk + t,
            out@.subrange(0, nk as int) == base,
            base.len() == nk,
            nk == snapshot.known_keys@.len(),
            forall|j: int| 0 <= j < nk ==> (#[trigger] base[j]).0@ == snapshot.known_keys@[j]@ && base[j].1,
            forall|j: int| 0 <= j < t ==> (#[trigger] out@[nk + j]).0 == sorted@[j] && !out@[nk + j].1,
        decreases sorted@.len() - t,
    {
        out.push((sorted[t].clone(), false));
        assert(out@.subrange(0, nk as int) =~= base);
        t = t + 1;
    }
    proof {
        let tail = out@.subrange(nk as int, out@.len() as int).map_values(|e: (String, bool)| e.0);
        assert(tail.len() == sorted@.len());
        assert forall|j: int| 0 <= j < sorted@.len() implies #[trigger] tail[j] == sorted@[j] by {
            assert(out@[nk + j].0 == sorted@[j]);
        }
        assert forall|j: int| 0 <= j < nk implies (#[trigger] out@[j]).0@ == snapshot.known_keys@[j]@ && out@[j].1 by {
            assert(out@[j] == out@.subrange(0, nk as int)[j]);
        }
        assert(tail =~= sorted@);
        assert(unknown@.len() == unknown_states(*snapshot).len()) by {
            assert(unknown@.dom() =~= unknown_states(*snapshot).dom());
        }
        assert forall|key: Seq<char>| #[trigger] unknown_states(*snapshot).contains_key(key) <==> lists_mac(tail, key) by {
            assert(unknown@.contains_key(key) == unknown_states(*snapshot).contains_key(key));
        }
        assert forall|j: int| snapshot.known_keys@.len() <= j < out@.len() implies !(#[trigger] out@[j]).1 by {
            assert(out@[nk + (j - nk)] == out@[j]);
        }
    }
    out
}

/// The keys of `m` that `known` does not list.
pub open spec fn unknown_among(m: Map<Seq<char>, PodState>, known: Seq<String>) -> Set<Seq<char>> {
    Set::new(|k: Seq<char>| m.contains_key(k) && !lists_mac(known, k))
}

/// The devices heard advertising that no key is held for.
pub open spec fn unknown_states(snapshot: Snapshot) -> Map<Seq<char>, PodState> {
    snapshot.states@.restrict(unknown_among(snapshot.states@, snapshot.known_keys@))
}

/// A row's title: the MAC, with the rotating BLE address beside it when they
/// differ.
pub open spec fn row_title_text(mac: Seq<char>, state: Option<PodState>) -> Seq<char> {
    match state {
        Some(s) => if s.current_ble_mac@.len() > 0 && s.current_ble_mac@ != mac {
            mac + " • BLE: "@ + s.current_ble_mac@
        } else {
            mac
        },
        None => mac,
    }
}

pub open spec fn opt_state(s: Option<&PodState>) -> Option<PodState> {
    match s {
        Some(x) => Some(*x),
        None => None,
    }
}

pub fn row_title(mac: &str, state: Option<&PodState>) -> (r: String)
    ensures
        r@ == row_title_text(mac@, opt_state(state)),
{
    let mut t = copy_str(mac);
    match state {
        Some(s) => {
            let ble = s.current_ble_mac.as_str();
            if ble.unicode_len() > 0 && !str_eq(ble, mac) {
                t.append(" • BLE: ");
                t.append(ble);
            }
        },
        None => {},
    }
    t
}

/// A row's subtitle: the device's model name, or nothing while none is known.
pub fn row_subtitle(state: Option<&PodState>) -> (r: String)
    ensures
        r@ == (match opt_state(state) {
            Some(s) => s.model_name@,
            None => Seq::<char>::empty(),
        }),
{
    match state {
        Some(s) => copy_str(s.model_name.as_str()),
        None => String::new(),
    }
}

/// How a row's status is drawn.
#[derive(Debug, Clone, Copy, PartialEq, Eq, Structural)]
pub enum RowStyle {
    Success,
    Warning,
    Dim,
}

impl RowStyle {
    /// The style class it maps to.
    pub fn css_class(&self) -> (r: &'static str)
        ensures
            r@ == (match *self {
                RowStyle::Success => "success"@,
                RowStyle::Warning => "warning"@,
                RowStyle::Dim => "dim-label"@,
            }),
    {
        match self {
            RowStyle::Success => "success",
            RowStyle::Warning => "warning",
            RowStyle::Dim => "dim-label",
        }
    }
}

/// A row's status: connected first; a device without a key (its MAC rotates, so
/// these rows come and go); a cached reading shows its age rather than passing
/// for an advertisement in progress; else advertising, or idle when nothing was
/// heard.
pub open spec fn row_status_is(text: Seq<char>, style: RowStyle, known: bool, connected: bool, state: Option<PodState>, now: u64) -> bool {
    if connected {
        text == "Connected"@ && style == RowStyle::Success
    } else if !known {
        text == "No key"@ && style == RowStyle::Warning
    } else {
        style == RowStyle::Dim && match state {
            Some(s) => match s.last_seen {
                Some(t) => if elapsed(now, t) >= RECENT_MS {
                    text == last_seen_line(elapsed(now, t))
                } else {
                    text == "Advertising"@
                },
                None => text == "Advertising"@,
            },
            None => text == "Idle"@,
        }
    }
}

pub fn row_status(known: bool, connected: bool, state: Option<&PodState>, now: u64) -> (r: (String, RowStyle))
    ensures
        row_status_is(r.0@, r.1, known, connected, opt_state(state), now),
{
    if connected {
        return (String::from_str("Connected"), RowStyle::Success);
    }
    if !known {
        return (String::from_str("No key"), RowStyle::Warning);
    }
    match state {
        Some(s) => match s.last_seen {
            Some(t) => {
                let age = if now >= t { now - t } else { 0 };
                if age >= RECENT_MS {
                    (last_seen_text(age), RowStyle::Dim)
                } else {
                    (String::from_str("Advertising"), RowStyle::Dim)
                }
            },
            None => (String::from_str("Advertising"), RowStyle::Dim),
        },
        None => (String::from_str("Idle"), RowStyle::Dim),
    }
}

/// A row stays while its key is held or its device still advertises.
pub fn keeps_row(snapshot: &Snapshot, mac: &str) -> (r: bool)
    ensures
        r == (lists_mac(snapshot.known_keys@, mac@) || snapshot.states@.contains_key(mac@)),
{
    lists(&snapshot.known_keys, mac) || snapshot.states.contains_key(mac)
}

/// The switcher is shown only when there is more than one device to switch
/// between.
pub fn switcher_visible(macs: &Vec<String>) -> (r: bool)
    ensures
        r == (macs@.len() > 1),
{
    macs.len() > 1
}

/// How one level reads on screen: the percentage, then a bolt while charging
/// and an ear while worn, or "--" when the level is unknown.
pub open spec fn shown_level(level: Option<u8>, charging: bool, in_ear: bool) -> Seq<char> {
    match level {
        None => "--"@,
        Some(v) => if charging && in_ear {
            decimal(v as nat) + "% ⚡ 👂"@
        } else if charging {
            decimal(v as nat) + "% ⚡"@
        } else if in_ear {
            decimal(v as nat) + "% 👂"@
        } else {
            decimal(v as nat) + "%"@
        },
    }
}

/// The battery display puts each pod's own reading in its own place: the left
/// text is the left pod's level with its charging and in-ear marks, the right
/// text the right pod's, the case text the case's (charging mark only). A BLE
/// reading also says how long ago it was heard: "just now" within a minute,
/// else the whole minutes elapsed; an AAP reading, always live, says nothing.
pub proof fn lemma_display_shows_each_part_in_its_place(d: BatteryDisplay, state: PodState, now: u64)
    requires
        displays(d, state, now),
    ensures
        d.left@ == shown_level(state.left_battery, state.left_charging, state.left_in_ear),
        d.right@ == shown_level(state.right_battery, state.right_charging, state.right_in_ear),
        d.case@ == shown_level(state.case_battery, state.case_charging, false),
        state.last_seen is None ==> d.last_seen is None,
        state.last_seen matches Some(t) ==> d.last_seen is Some,
        match (state.last_seen, d.last_seen) {
            (Some(t), Some(l)) => {
                let age = if now >= t { now - t } else { 0 };
                &&& age < 60_000 ==> l@ == "Last seen just now"@
                &&& age >= 60_000 ==> l@ == "Last seen "@ + decimal((age / 60_000) as nat) + " min ago"@
            },
            _ => true,
        },
{
    reveal_strlit("%");
    reveal_strlit(" ⚡");
    reveal_strlit(" 👂");
    reveal_strlit("% ⚡ 👂");
    reveal_strlit("% ⚡");
    reveal_strlit("% 👂");
    let e = Seq::<char>::empty();
    assert(" ⚡"@ + " 👂"@ =~= " ⚡ 👂"@) by {
        reveal_strlit(" ⚡ 👂");
    }
    assert forall|v: nat| #![auto] decimal(v) + "%"@ + (" ⚡"@ + " 👂"@) =~= decimal(v) + "% ⚡ 👂"@ by {
        reveal_strlit(" ⚡ 👂");
    }
    assert forall|v: nat| #![auto] decimal(v) + "%"@ + (" ⚡"@ + e) =~= decimal(v) + "% ⚡"@ by {}
    assert forall|v: nat| #![auto] decimal(v) + "%"@ + (e + " 👂"@) =~= decimal(v) + "% 👂"@ by {}
    assert forall|v: nat| #![auto] decimal(v) + "%"@ + (e + e) =~= decimal(v) + "%"@ by {}
}

proof fn lemma_first_listed_is_first(v: Seq<String>, macs: Seq<String>)
    ensures
        match first_listed(v, macs) {
            Some(i) => 0 <= i < v.len() && lists_mac(macs, v[i]@) && forall|k: int|
                0 <= k < i ==> !lists_mac(macs, #[trigger] v[k]@),
            None => forall|k: int| 0 <= k < v.len() ==> !lists_mac(macs, #[trigger] v[k]@),
        },
    decreases v.len(),
{
    if v.len() > 0 {
        lemma_first_listed_is_first(v.drop_last(), macs);
        assert forall|k: int| 0 <= k < v.len() - 1 implies #[trigger] v[k] == v.drop_last()[k] by {}
    }
}

/// The switcher never lands on a device that is not listed: it stays on the
/// current device while that is listed; otherwise it moves to the first device,
/// in link order, that is both linked and listed; with none, to the first listed
/// device; and it selects nothing only when nothing is listed.
pub proof fn lemma_switcher_selection(current: Option<Seq<char>>, macs: Seq<String>, connected: Seq<String>)
    ensures
        chosen_device(current, macs, connected) is Some <==> macs.len() > 0,
        match chosen_device(current, macs, connected) {
            Some(m) => lists_mac(macs, m),
            None => true,
        },
        match current {
            Some(c) => lists_mac(macs, c) ==> chosen_device(current, macs, connected) == Some(c),
            None => true,
        },
        (match current {
            Some(c) => !lists_mac(macs, c),
            None => true,
        }) ==> forall|j: int|
            0 <= j < connected.len() && lists_mac(macs, #[trigger] connected[j]@) && (forall|k: int|
                0 <= k < j ==> !lists_mac(macs, #[trigger] connected[k]@)) ==> chosen_device(current, macs, connected)
                == Some(connected[j]@),
        (match current {
            Some(c) => !lists_mac(macs, c),
            None => true,
        }) && (forall|k: int| 0 <= k < connected.len() ==> !lists_mac(macs, #[trigger] connected[k]@))
            && macs.len() > 0 ==> chosen_device(current, macs, connected) == Some(macs[0]@),
{
    lemma_first_listed_is_first(connected, macs);
    if macs.len() > 0 {
        assert(lists_mac(macs, macs[0]@));
    }
    match current {
        Some(c) => {
            if lists_mac(macs, c) {
                let i = choose|i: int| 0 <= i < macs.len() && #[trigger] macs[i]@ == c;
            }
        },
        None => {},
    }
    assert forall|j: int|
        0 <= j < connected.len() && lists_mac(macs, #[trigger] connected[j]@) && (forall|k: int|
            0 <= k < j ==> !lists_mac(macs, #[trigger] connected[k]@)) implies first_listed(connected, macs)
        == Some(j) by {
        match first_listed(connected, macs) {
            Some(i) => {
                if i < j {
                    assert(!lists_mac(macs, connected[i]@));
                } else if i > j {
                    assert(!lists_mac(macs, connected[j]@));
                }
            },
            None => {
                assert(!lists_mac(macs, connected[j]@));
            },
        }
    }
}

} // verus!
