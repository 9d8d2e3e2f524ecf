//! AAP proximity key packet parsing.
//!
//! Packet layout:
//!   0-1: header (04 00)   2-3: command (04 00)
//!   4:   key marker 0x31  5: unknown   6: key count
//! Then per key: [type] [unknown] [len] [unknown] [data...]
use vstd::prelude::*;
use crate::ble::decrypt::KEY_LEN;
use crate::text::{hex2, push_hex2};

verus! {

/// Identity-Resolving Key / Encryption Key.
#[derive(Debug, Clone, Copy, PartialEq, Eq, Structural)]
pub enum KeyType {
    Irk,
    EncKey,
    Unknown(u8),
}

/// The key type a wire byte names.
pub open spec fn key_type_of(v: u8) -> KeyType {
    if v == 0x01 {
        KeyType::Irk
    } else if v == 0x04 {
        KeyType::EncKey
    } else {
        KeyType::Unknown(v)
    }
}

impl KeyType {
    /// The key type a wire byte names.
    pub fn from_byte(v: u8) -> (r: KeyType)
        ensures
            r == key_type_of(v),
    {
        match v {
            0x01 => KeyType::Irk,
            0x04 => KeyType::EncKey,
            other => KeyType::Unknown(other),
        }
    }

    /// The name shown for the key type.
    pub fn name(&self) -> (r: String)
        ensures
            r@ == key_type_name(*self),
    {
        match self {
            KeyType::Irk => String::from_str("IRK (Identity Resolving Key)"),
            KeyType::EncKey => String::from_str("ENC_KEY (Encryption Key)"),
            KeyType::Unknown(v) => {
                let mut s = String::from_str("UNKNOWN (0x");
                push_hex2(&mut s, *v);
                s.append(")");
                s
            },
        }
    }
}

/// The name shown for a key type.
pub open spec fn key_type_name(t: KeyType) -> Seq<char> {
    match t {
        KeyType::Irk => "IRK (Identity Resolving Key)"@,
        KeyType::EncKey => "ENC_KEY (Encryption Key)"@,
        KeyType::Unknown(v) => "UNKNOWN (0x"@ + hex2(v) + ")"@,
    }
}

impl From<u8> for KeyType {
    fn from(v: u8) -> (r: Self) {
        KeyType::from_byte(v)
    }
}

impl vstd::std_specs::convert::FromSpecImpl<u8> for KeyType {
    open spec fn obeys_from_spec() -> bool {
        true
    }

    open spec fn from_spec(v: u8) -> KeyType {
        key_type_of(v)
    }
}

#[derive(Debug, Clone, PartialEq, Eq)]
pub struct ProximityKey {
    pub key_type: KeyType,
    pub data: Vec<u8>,
}

impl View for ProximityKey {
    type V = (KeyType, Seq<u8>);

    open spec fn view(&self) -> (KeyType, Seq<u8>) {
        (self.key_type, self.data@)
    }
}

/// The keys of a list, as (type, bytes) pairs.
pub open spec fn keys_view(keys: Seq<ProximityKey>) -> Seq<(KeyType, Seq<u8>)> {
    keys.map_values(|k: ProximityKey| k@)
}

#[derive(Debug, Clone, Copy, PartialEq, Eq, Structural)]
pub enum KeyParseError {
    TooShort(usize),
    NotKeyPacket,
    NoKeys,
    SuspiciousCount(usize),
    TruncatedHeader(usize),
    TruncatedData(usize),
    NoEncryptionKey,
    BadEncryptionKeyLen(usize),
}

/// The largest key count a packet may claim.
pub const MAX_KEYS: usize = 10;

/// The key data marker at byte 4.
pub const KEY_MARKER: u8 = 0x31;

/// 04 00 04 00 followed by the key marker, in a packet of at least 7 bytes.
pub open spec fn is_key_header(packet: Seq<u8>) -> bool {
    &&& packet.len() >= 7
    &&& packet[0] == 0x04 && packet[1] == 0x00 && packet[2] == 0x04 && packet[3] == 0x00
    &&& packet[4] == KEY_MARKER
}

/// The first `n` keys of a key packet and the offset after them, or the error
/// met while reading them.
pub open spec fn keys_walk(packet: Seq<u8>, n: nat) -> Result<(Seq<(KeyType, Seq<u8>)>, int), KeyParseError>
    decreases n,
{
    if n == 0 {
        Ok((Seq::empty(), 7))
    } else {
        match keys_walk(packet, (n - 1) as nat) {
            Err(e) => Err(e),
            Ok((ks, off)) => {
                if off + 3 >= packet.len() {
                    Err(KeyParseError::TruncatedHeader(n as usize))
                } else if off + 4 + packet[off + 2] > packet.len() {
                    Err(KeyParseError::TruncatedData(n as usize))
                } else {
                    Ok(
                        (
                            ks.push(
                                (
                                    key_type_of(packet[off]),
                                    packet.subrange(off + 4, off + 4 + packet[off + 2]),
                                ),
                            ),
                            off + 4 + packet[off + 2],
                        ),
                    )
                }
            },
        }
    }
}

/// What `parse_proximity_keys` returns for `packet`, as (type, bytes) pairs.
pub open spec fn key_packet_result(packet: Seq<u8>) -> Result<Seq<(KeyType, Seq<u8>)>, KeyParseError> {
    if packet.len() < 7 {
        Err(KeyParseError::TooShort(packet.len() as usize))
    } else if !is_key_header(packet) {
        Err(KeyParseError::NotKeyPacket)
    } else if packet[6] == 0 {
        Err(KeyParseError::NoKeys)
    } else if packet[6] > MAX_KEYS {
        Err(KeyParseError::SuspiciousCount(packet[6] as usize))
    } else {
        match keys_walk(packet, packet[6] as nat) {
            Ok((ks, _)) => Ok(ks),
            Err(e) => Err(e),
        }
    }
}

pub fn is_key_packet(packet: &[u8]) -> (r: bool)
    ensures
        r == is_key_header(packet@),
{
    packet.len() >= 7 && packet[0] == 0x04 && packet[1] == 0x00 && packet[2] == 0x04
        && packet[3] == 0x00 && packet[4] == KEY_MARKER
}

/// Once the walk fails it fails the same way for every longer walk.
proof fn lemma_walk_error_persists(packet: Seq<u8>, n: nat, m: nat)
    requires
        n <= m,
        keys_walk(packet, n) is Err,
    ensures
        keys_walk(packet, m) == keys_walk(packet, n),
    decreases m - n,
{
    if n < m {
        lemma_walk_error_persists(packet, n, (m - 1) as nat);
    }
}

fn copy_range(packet: &[u8], from: usize, to: usize) -> (r: Vec<u8>)
    requires
        from <= to <= packet@.len(),
    ensures
        r@ == packet@.subrange(from as int, to as int),
{
    let mut out: Vec<u8> = Vec::new();
    let mut j: usize = from;
    while j < to
        invariant
            from <= j <= to <= packet@.len(),
            out@ == packet@.subrange(from as int, j as int),
        decreases to - j,
    {
        out.push(packet[j]);
        j = j + 1;
        assert(out@ =~= packet@.subrange(from as int, j as int));
    }
    out
}

pub fn parse_proximity_keys(packet: &[u8]) -> (r: Result<Vec<ProximityKey>, KeyParseError>)
    ensures
        match (r, key_packet_result(packet@)) {
            (Ok(keys), Ok(spec_keys)) => keys_view(keys@) == spec_keys,
            (Err(e), Err(spec_e)) => e == spec_e,
            _ => false,
        },
{
    if packet.len() < 7 {
        return Err(KeyParseError::TooShort(packet.len()));
    }
    if !is_key_packet(packet) {
        return Err(KeyParseError::NotKeyPacket);
    }
    let key_count: usize = packet[6] as usize;
    if key_count == 0 {
        return Err(KeyParseError::NoKeys);
    }
    if key_count > MAX_KEYS {
        return Err(KeyParseError::SuspiciousCount(key_count));
    }
    let mut keys: Vec<ProximityKey> = Vec::new();
    let mut offset: usize = 7;
    let mut i: usize = 0;
    assert(keys_view(keys@) =~= Seq::<(KeyType, Seq<u8>)>::empty());
    while i < key_count
        invariant
            is_key_header(packet@),
            key_count == packet@[6],
            1 <= key_count <= MAX_KEYS,
            i <= key_count,
            offset <= packet@.len(),
            keys_walk(packet@, i as nat) == Ok::<(Seq<(KeyType, Seq<u8>)>, int), KeyParseError>(
                (keys_view(keys@), offset as int),
            ),
        decreases key_count - i,
    {
        if offset >= packet.len() - 3 {
            proof {
                lemma_walk_error_persists(packet@, (i + 1) as nat, key_count as nat);
            }
            return Err(KeyParseError::TruncatedHeader(i + 1));
        }
        let key_type = KeyType::from_byte(packet[offset]);
        let key_length: usize = packet[offset + 2] as usize;
        let data_start: usize = offset + 4;
        if key_length > packet.len() - data_start {
            proof {
                lemma_walk_error_persists(packet@, (i + 1) as nat, key_count as nat);
            }
            return Err(KeyParseError::TruncatedData(i + 1));
        }
        let data = copy_range(packet, data_start, data_start + key_length);
        let ghost old_keys = keys@;
        keys.push(ProximityKey { key_type, data });
        assert(keys_view(keys@) =~= keys_view(old_keys).push(
            (key_type_of(packet@[offset as int]), packet@.subrange(data_start as int, (data_start + key_length) as int)),
        ));
        offset = data_start + key_length;
        i = i + 1;
    }
    Ok(keys)
}

/// The wire form of one key entry `(type, b1, b3, data)`: the type byte, the byte
/// after it, the data's length, the byte after that, then the data.
pub open spec fn key_entry_bytes(e: (u8, u8, u8, Seq<u8>)) -> Seq<u8> {
    seq![e.0, e.1, e.3.len() as u8, e.2] + e.3
}

/// The wire form of a list of key entries, one after another.
pub open spec fn key_entries_bytes(es: Seq<(u8, u8, u8, Seq<u8>)>) -> Seq<u8>
    decreases es.len(),
{
    if es.len() == 0 {
        Seq::empty()
    } else {
        key_entries_bytes(es.drop_last()) + key_entry_bytes(es.last())
    }
}

/// A key packet carrying the entries `es`, with `b5` in its unused byte 5.
pub open spec fn key_packet_bytes(b5: u8, es: Seq<(u8, u8, u8, Seq<u8>)>) -> Seq<u8> {
    seq![0x04u8, 0x00u8, 0x04u8, 0x00u8, KEY_MARKER, b5, es.len() as u8] + key_entries_bytes(es)
}

/// The keys that entries `es` stand for, as (type, bytes) pairs.
pub open spec fn entries_as_keys(es: Seq<(u8, u8, u8, Seq<u8>)>) -> Seq<(KeyType, Seq<u8>)> {
    es.map_values(|e: (u8, u8, u8, Seq<u8>)| (key_type_of(e.0), e.3))
}

proof fn lemma_entries_bytes_concat(a: Seq<(u8, u8, u8, Seq<u8>)>, b: Seq<(u8, u8, u8, Seq<u8>)>)
    ensures
        key_entries_bytes(a + b) == key_entries_bytes(a) + key_entries_bytes(b),
    decreases b.len(),
{
    if b.len() == 0 {
        assert(a + b =~= a);
        assert(key_entries_bytes(a) + key_entries_bytes(b) =~= key_entries_bytes(a));
    } else {
        assert((a + b).drop_last() =~= a + b.drop_last());
        assert((a + b).last() == b.last());
        lemma_entries_bytes_concat(a, b.drop_last());
        assert(key_entries_bytes(a + b) =~= key_entries_bytes(a) + key_entries_bytes(b));
    }
}

/// Reading `n` keys of a packet built from `es` gives the first `n` entries back,
/// and stops right after their bytes.
proof fn lemma_walk_built_packet(b5: u8, es: Seq<(u8, u8, u8, Seq<u8>)>, rest: Seq<u8>, n: nat)
    requires
        n <= es.len(),
        forall|i: int| 0 <= i < es.len() ==> (#[trigger] es[i]).3.len() <= 255,
    ensures
        keys_walk(key_packet_bytes(b5, es) + rest, n) == Ok::<(Seq<(KeyType, Seq<u8>)>, int), KeyParseError>(
            (entries_as_keys(es.take(n as int)), 7 + key_entries_bytes(es.take(n as int)).len() as int),
        ),
    decreases n,
{
    let p = key_packet_bytes(b5, es) + rest;
    if n == 0 {
        assert(entries_as_keys(es.take(0)) =~= Seq::<(KeyType, Seq<u8>)>::empty());
    } else {
        let m = (n - 1) as nat;
        lemma_walk_built_packet(b5, es, rest, m);
        let head = seq![0x04u8, 0x00u8, 0x04u8, 0x00u8, KEY_MARKER, b5, es.len() as u8];
        let before = key_entries_bytes(es.take(m as int));
        let e = es[m as int];
        let entry = key_entry_bytes(e);
        let after = key_entries_bytes(es.skip(n as int));
        assert(es.take(n as int).drop_last() =~= es.take(m as int));
        assert(es.take(n as int).last() == e);
        assert(key_entries_bytes(es.take(n as int)) == before + entry);
        assert(es =~= es.take(n as int) + es.skip(n as int));
        lemma_entries_bytes_concat(es.take(n as int), es.skip(n as int));
        let off: int = 7 + before.len() as int;
        assert(p =~= (head + before) + entry + (after + rest));
        assert(e.3.len() <= 255);
        assert((e.3.len() as u8) as int == e.3.len());
        assert(p[off] == e.0);
        assert(p[off + 2] == e.3.len());
        assert(p.subrange(off + 4, off + 4 + e.3.len()) =~= e.3);
        assert(entries_as_keys(es.take(n as int)) =~= entries_as_keys(es.take(m as int)).push(
            (key_type_of(e.0), e.3),
        ));
    }
}

/// A key packet built from a list of keys parses back to that list: the same
/// keys, in the same order, each with exactly the data it was built with,
/// whatever the unused bytes hold and whatever follows the last key.
pub proof fn lemma_key_packet_parses_back(b5: u8, es: Seq<(u8, u8, u8, Seq<u8>)>, rest: Seq<u8>)
    requires
        1 <= es.len() <= MAX_KEYS,
        forall|i: int| 0 <= i < es.len() ==> (#[trigger] es[i]).3.len() <= 255,
    ensures
        key_packet_result(key_packet_bytes(b5, es) + rest) == Ok::<Seq<(KeyType, Seq<u8>)>, KeyParseError>(
            entries_as_keys(es),
        ),
{
    let p = key_packet_bytes(b5, es) + rest;
    lemma_walk_built_packet(b5, es, rest, es.len());
    assert(es.take(es.len() as int) =~= es);
    assert(p[6] == es.len());
    assert(is_key_header(p));
}

/// The index of the first key of type `t`, if any.
pub open spec fn first_of_type(keys: Seq<(KeyType, Seq<u8>)>, t: KeyType) -> Option<int>
    decreases keys.len(),
{
    if keys.len() == 0 {
        None
    } else {
        match first_of_type(keys.drop_last(), t) {
            Some(i) => Some(i),
            None => if keys.last().0 == t {
                Some(keys.len() - 1)
            } else {
                None
            },
        }
    }
}

/// What `find_encryption_key` returns: the first ENC_KEY, which must be
/// exactly `KEY_LEN` bytes long.
pub open spec fn encryption_key_result(keys: Seq<(KeyType, Seq<u8>)>) -> Result<Seq<u8>, KeyParseError> {
    match first_of_type(keys, KeyType::EncKey) {
        None => Err(KeyParseError::NoEncryptionKey),
        Some(i) => if keys[i].1.len() == KEY_LEN {
            Ok(keys[i].1)
        } else {
            Err(KeyParseError::BadEncryptionKeyLen(keys[i].1.len() as usize))
        },
    }
}

proof fn lemma_first_of_type_step(keys: Seq<(KeyType, Seq<u8>)>, t: KeyType, i: int)
    requires
        0 <= i < keys.len(),
        first_of_type(keys.subrange(0, i), t) is None,
    ensures
        first_of_type(keys.subrange(0, i + 1), t) == (if keys[i].0 == t {
            Some(i)
        } else {
            None::<int>
        }),
{
    assert(keys.subrange(0, i + 1).drop_last() =~= keys.subrange(0, i));
}

proof fn lemma_first_of_type_prefix(keys: Seq<(KeyType, Seq<u8>)>, t: KeyType, i: int)
    requires
        0 <= i <= keys.len(),
        first_of_type(keys.subrange(0, i), t) matches Some(k),
    ensures
        first_of_type(keys, t) == first_of_type(keys.subrange(0, i), t),
    decreases keys.len() - i,
{
    if i < keys.len() {
        assert(keys.subrange(0, i + 1).drop_last() =~= keys.subrange(0, i));
        lemma_first_of_type_prefix(keys, t, i + 1);
    } else {
        assert(keys.subrange(0, i) =~= keys);
    }
}

/// Index of the first key of type `t`.
fn find_first(keys: &[ProximityKey], t: KeyType) -> (r: Option<usize>)
    ensures
        match r {
            Some(i) => i < keys@.len() && first_of_type(keys_view(keys@), t) == Some(i as int),
            None => first_of_type(keys_view(keys@), t) is None,
        },
{
    let ghost ks = keys_view(keys@);
    let mut i: usize = 0;
    assert(ks.subrange(0, 0) =~= Seq::<(KeyType, Seq<u8>)>::empty());
    while i < keys.len()
        invariant
            i <= keys@.len(),
            ks == keys_view(keys@),
            first_of_type(ks.subrange(0, i as int), t) is None,
        decreases keys@.len() - i,
    {
        proof {
            lemma_first_of_type_step(ks, t, i as int);
        }
        if keys[i].key_type == t {
            proof {
                lemma_first_of_type_prefix(ks, t, i + 1);
            }
            return Some(i);
        }
        i = i + 1;
    }
    assert(ks.subrange(0, i as int) =~= ks);
    None
}

/// The ENC_KEY is what actually decrypts BLE advertisements.
///
/// The length is checked here, not only at decryption: the key comes from the
/// device and is persisted, so one of any other length would replace a working
/// key on disk and then never decrypt anything.
pub fn find_encryption_key(keys: &[ProximityKey]) -> (r: Result<[u8; KEY_LEN], KeyParseError>)
    ensures
        match (r, encryption_key_result(keys_view(keys@))) {
            (Ok(k), Ok(spec_k)) => k@ == spec_k,
            (Err(e), Err(spec_e)) => e == spec_e,
            _ => false,
        },
{
    match find_first(keys, KeyType::EncKey) {
        None => Err(KeyParseError::NoEncryptionKey),
        Some(i) => {
            let data = &keys[i].data;
            if data.len() != KEY_LEN {
                return Err(KeyParseError::BadEncryptionKeyLen(data.len()));
            }
            let mut out = [0u8; KEY_LEN];
            let mut j: usize = 0;
            while j < KEY_LEN
                invariant
                    j <= KEY_LEN,
                    data@.len() == KEY_LEN,
                    forall|k: int| 0 <= k < j ==> out@[k] == data@[k],
                decreases KEY_LEN - j,
            {
                out[j] = data[j];
                j = j + 1;
            }
            assert(out@ =~= data@);
            Ok(out)
        },
    }
}

pub fn find_irk(keys: &[ProximityKey]) -> (r: Option<&[u8]>)
    ensures
        match (r, first_of_type(keys_view(keys@), KeyType::Irk)) {
            (Some(d), Some(i)) => d@ == keys_view(keys@)[i].1,
            (None, None) => true,
            _ => false,
        },
{
    match find_first(keys, KeyType::Irk) {
        None => None,
        Some(i) => Some(keys[i].data.as_slice()),
    }
}

} // verus!
