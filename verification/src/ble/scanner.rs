//! What the BLE scanner makes of a BlueZ property change.
//!
//! The scanner watches PropertiesChanged on org.bluez.Device1 for Apple
//! manufacturer data (company ID 0x004C) and parses proximity pairing
//! advertisements out of it. Cleartext advertisements give battery in 10% steps;
//! decrypting with a stored key yields 1% accuracy.
use vstd::prelude::*;
use vstd::utf8::encode_utf8;
use crate::ble::parser::{describes_payload, parse_proximity_data, payload_of, proximity_error, ProximityData};
use crate::text::{push_char, str_eq};

verus! {

/// Bluetooth SIG company identifier of Apple.
pub const APPLE_COMPANY_ID: u16 = 0x004C;

/// One parsed advertisement plus the (randomized) MAC it arrived from.
#[derive(Debug, Clone)]
pub struct Advertisement {
    pub data: ProximityData,
    /// BLE MAC, which rotates periodically for privacy.
    pub ble_mac: String,
}

/// The characters after the last `/` (all of them when there is none).
pub open spec fn last_segment(p: Seq<char>) -> Seq<char>
    decreases p.len(),
{
    if p.len() == 0 {
        p
    } else if p.last() == '/' {
        Seq::empty()
    } else {
        last_segment(p.drop_last()).push(p.last())
    }
}

/// `_` turned into `:`, every other character kept.
pub open spec fn underscores_to_colons(s: Seq<char>) -> Seq<char> {
    s.map_values(|c: char| if c == '_' { ':' } else { c })
}

/// The prefix of a BlueZ device object's name.
pub open spec fn device_prefix() -> Seq<char> {
    seq!['d', 'e', 'v', '_']
}

/// `/org/bluez/hci0/dev_AA_BB_CC_DD_EE_FF` gives `AA:BB:CC:DD:EE:FF`: the last path
/// segment, which must start with `dev_` and continue with 17 bytes.
pub open spec fn mac_of_path(path: Seq<char>) -> Option<Seq<char>> {
    let tail = last_segment(path);
    if tail.len() >= 4 && tail.subrange(0, 4) == device_prefix() && encode_utf8(
        tail.subrange(4, tail.len() as int),
    ).len() == 17 {
        Some(underscores_to_colons(tail.subrange(4, tail.len() as int)))
    } else {
        None
    }
}

/// Where the last segment of `p` starts.
fn last_segment_start(p: &str) -> (start: usize)
    ensures
        start <= p@.len(),
        last_segment(p@) == p@.subrange(start as int, p@.len() as int),
{
    let n = p.unicode_len();
    let mut start: usize = 0;
    let mut i: usize = 0;
    while i < n
        invariant
            n == p@.len(),
            start <= i <= n,
            last_segment(p@.subrange(0, i as int)) == p@.subrange(start as int, i as int),
        decreases n - i,
    {
        let c = p.get_char(i);
        assert(p@.subrange(0, i + 1).drop_last() =~= p@.subrange(0, i as int));
        if c == '/' {
            start = i + 1;
            assert(p@.subrange(start as int, i + 1) =~= Seq::<char>::empty());
        } else {
            assert(p@.subrange(start as int, i + 1) =~= p@.subrange(start as int, i as int).push(c));
        }
        i = i + 1;
    }
    assert(p@.subrange(0, n as int) =~= p@);
    start
}

/// Extracts the MAC address from a BlueZ device object path.
pub fn mac_from_path(path: &str) -> (r: Option<String>)
    ensures
        match (r, mac_of_path(path@)) {
            (Some(s), Some(t)) => s@ == t,
            (None, None) => true,
            _ => false,
        },
{
    let start = last_segment_start(path);
    let n = path.unicode_len();
    let ghost tail = path@.subrange(start as int, n as int);
    if n - start < 4 {
        return None;
    }
    if !(path.get_char(start) == 'd' && path.get_char(start + 1) == 'e' && path.get_char(start + 2)
        == 'v' && path.get_char(start + 3) == '_') {
        proof {
            if tail.subrange(0, 4) == device_prefix() {
                assert(tail.subrange(0, 4)[0] == tail[0]);
                assert(tail.subrange(0, 4)[1] == tail[1]);
                assert(tail.subrange(0, 4)[2] == tail[2]);
                assert(tail.subrange(0, 4)[3] == tail[3]);
            }
        }
        return None;
    }
    assert(tail.subrange(0, 4) =~= device_prefix());
    let ghost hex = tail.subrange(4, tail.len() as int);
    let mut raw = String::new();
    let mut mac = String::new();
    let mut i: usize = start + 4;
    while i < n
        invariant
            n == path@.len(),
            start + 4 <= i <= n,
            hex == path@.subrange(start + 4, n as int),
            tail == path@.subrange(start as int, n as int),
            last_segment(path@) == tail,
            tail.len() >= 4,
            tail.subrange(0, 4) == device_prefix(),
            hex == tail.subrange(4, tail.len() as int),
            raw@ == path@.subrange(start + 4, i as int),
            mac@ == underscores_to_colons(path@.subrange(start + 4, i as int)),
        decreases n - i,
    {
        let c = path.get_char(i);
        push_char(&mut raw, c);
        if c == '_' {
            push_char(&mut mac, ':');
        } else {
            push_char(&mut mac, c);
        }
        assert(path@.subrange(start + 4, i + 1) =~= path@.subrange(start + 4, i as int).push(c));
        assert(mac@ =~= underscores_to_colons(path@.subrange(start + 4, i + 1)));
        i = i + 1;
    }
    assert(raw@ =~= hex);
    if raw.as_str().as_bytes().len() != 17 {
        return None;
    }
    Some(mac)
}

/// Apple's entry among the manufacturer data of an advertisement, given as
/// (company identifier, data) pairs.
pub fn apple_manufacturer_data(entries: &Vec<(u16, Vec<u8>)>) -> (r: Option<&Vec<u8>>)
    ensures
        match r {
            Some(d) => exists|i: int|
                0 <= i < entries@.len() && entries@[i].0 == APPLE_COMPANY_ID && #[trigger] entries@[i].1
                    == *d,
            None => forall|i: int| 0 <= i < entries@.len() ==> #[trigger] entries@[i].0 != APPLE_COMPANY_ID,
        },
{
    let mut i: usize = 0;
    while i < entries.len()
        invariant
            i <= entries@.len(),
            forall|j: int| 0 <= j < i ==> #[trigger] entries@[j].0 != APPLE_COMPANY_ID,
        decreases entries@.len() - i,
    {
        if entries[i].0 == APPLE_COMPANY_ID {
            assert(entries@[i as int].1 == entries[i as int].1);
            return Some(&entries[i].1);
        }
        i = i + 1;
    }
    None
}

/// The interface whose property changes carry advertisements.
pub open spec fn device_interface() -> Seq<char> {
    "org.bluez.Device1"@
}

/// Turns one PropertiesChanged signal into an advertisement: the MAC out of the
/// object path and the parsed Apple data. `None` for another interface than
/// Device1, a path that names no device, or data that is no proximity pairing
/// message.
pub fn advertisement_from(path: &str, iface: &str, apple_data: &[u8]) -> (r: Option<Advertisement>)
    ensures
        r is Some <==> (iface@ == device_interface() && mac_of_path(path@) is Some && proximity_error(
            apple_data@,
        ) is None),
        r matches Some(a) ==> mac_of_path(path@) == Some(a.ble_mac@) && describes_payload(
            a.data,
            payload_of(apple_data@),
        ),
{
    if !str_eq(iface, "org.bluez.Device1") {
        return None;
    }
    let ble_mac = match mac_from_path(path) {
        Some(m) => m,
        None => return None,
    };
    match parse_proximity_data(apple_data) {
        Ok(data) => Some(Advertisement { data, ble_mac }),
        Err(_) => None,
    }
}

} // verus!
