//! The AirPods BLE encryption keys, by device MAC.
//!
//! On disk they live at `$XDG_DATA_HOME/linuxpods/keys.json`, mode 0600, as
//! `{"version": 1, "keys": {"MAC": "base64-key", ...}}`. Reading and writing that
//! file is the program's part; this module holds the keys and turns them into
//! the file's entries and back.
use vstd::prelude::*;
use vstd::slice::slice_to_vec;
use base64::Engine as _;
use base64::engine::general_purpose::STANDARD;
use std::path::PathBuf;
use crate::strmap::{StrMap, distinct_keys, has_key, lemma_map_of, map_of};
use crate::text::copy_str;

verus! {

/// Name of the directory under the XDG data directory.
pub const APP_NAME: &'static str = "linuxpods";

/// Name of the keys file inside it.
pub const KEYS_FILE: &'static str = "keys.json";

/// The `version` the keys file carries.
pub const FORMAT_VERSION: u32 = 1;

#[verifier::external_type_specification]
#[verifier::external_body]
pub struct ExPathBuf(PathBuf);

/// What the standard base64 engine (with padding) makes of some bytes.
pub uninterp spec fn base64_encoding(bytes: Seq<u8>) -> Seq<char>;

/// What the standard base64 engine decodes a text to; `None` where it refuses it.
pub uninterp spec fn base64_decoding(text: Seq<char>) -> Option<Seq<u8>>;

/// Trusted: `base64::engine::general_purpose::STANDARD.encode`. Claimed: the
/// result is the engine's encoding of the bytes, and the same engine decodes it
/// back to them. The length bound is where the crate's `encoded_len` still fits
/// a `usize`; beyond it `encode` panics.
#[verifier::external_body]
fn encode_base64(bytes: &[u8]) -> (r: String)
    requires
        bytes@.len() <= usize::MAX / 4,
    ensures
        r@ == base64_encoding(bytes@),
        base64_decoding(r@) == Some(bytes@),
{
    STANDARD.encode(bytes)
}

/// Trusted: `base64::engine::general_purpose::STANDARD.decode` on the text's
/// bytes. Claimed: the result is the engine's decoding of the text; an error of
/// the crate becomes `None`.
#[verifier::external_body]
fn decode_base64(text: &str) -> (r: Option<Vec<u8>>)
    ensures
        match r {
            Some(b) => base64_decoding(text@) == Some(b@),
            None => base64_decoding(text@) is None,
        },
{
    STANDARD.decode(text.as_bytes()).ok()
}

/// Why the keystore refused something.
#[derive(Debug, Clone, PartialEq, Eq)]
pub enum KeystoreError {
    /// An encryption key cannot be empty.
    EmptyKey,
    /// The key stored for this MAC is not valid base64.
    BadKey(String),
}

/// The keys file's entries, keys taken as characters.
pub open spec fn entries_view(es: Seq<(String, String)>) -> Seq<(Seq<char>, Seq<char>)> {
    es.map_values(|e: (String, String)| (e.0@, e.1@))
}

/// What reading the file's entries in order gives: every key decoded, a later
/// entry for a MAC overriding an earlier one; or the MAC of the first entry
/// that does not decode.
pub open spec fn decoded_keys(es: Seq<(Seq<char>, Seq<char>)>) -> Result<Map<Seq<char>, Seq<u8>>, Seq<char>>
    decreases es.len(),
{
    if es.len() == 0 {
        Ok(Map::empty())
    } else {
        match decoded_keys(es.drop_last()) {
            Err(mac) => Err(mac),
            Ok(m) => match base64_decoding(es.last().1) {
                Some(k) => Ok(m.insert(es.last().0, k)),
                None => Err(es.last().0),
            },
        }
    }
}

/// Every key short enough for its base64 form to fit in memory.
pub open spec fn encodable(keys: Map<Seq<char>, Seq<u8>>) -> bool {
    forall|mac: Seq<char>| #[trigger] keys.contains_key(mac) ==> keys[mac].len() <= usize::MAX / 4
}

/// In-memory keys, plus the directory their file lives in.
pub struct Keystore {
    data_dir: PathBuf,
    keys: StrMap<Vec<u8>>,
}

impl Keystore {
    /// The directory the keys file lives in.
    pub closed spec fn directory(&self) -> PathBuf {
        self.data_dir
    }
}

impl View for Keystore {
    type V = Map<Seq<char>, Seq<u8>>;

    closed spec fn view(&self) -> Map<Seq<char>, Seq<u8>> {
        self.keys@.map_values(|k: Vec<u8>| k@)
    }
}

/// A copy of a key map.
fn copy_keys(keys: &StrMap<Vec<u8>>) -> (r: StrMap<Vec<u8>>)
    ensures
        r@.map_values(|k: Vec<u8>| k@) == keys@.map_values(|k: Vec<u8>| k@),
{
    let n = keys.len();
    let mut r: StrMap<Vec<u8>> = StrMap::new();
    let mut i: usize = 0;
    assert(keys.pairs().subrange(0, 0) =~= Seq::<(Seq<char>, Vec<u8>)>::empty());
    assert(r@.map_values(|k: Vec<u8>| k@) =~= Map::<Seq<char>, Seq<u8>>::empty());
    assert(map_of(keys.pairs().subrange(0, 0)).map_values(|k: Vec<u8>| k@) =~= Map::<Seq<char>, Seq<u8>>::empty());
    while i < n
        invariant
            n == keys.pairs().len(),
            distinct_keys(keys.pairs()),
            i <= n,
            r@.map_values(|k: Vec<u8>| k@) == map_of(keys.pairs().subrange(0, i as int)).map_values(
                |k: Vec<u8>| k@,
            ),
        decreases n - i,
    {
        let ghost before = r@;
        let k = keys.key_at(i).clone();
        let v = slice_to_vec(keys.value_at(i).as_slice());
        let ghost p = keys.pairs()[i as int];
        let ghost kv = k@;
        let ghost vv = v@;
        r.insert(k, v);
        proof {
            let ps = keys.pairs();
            assert(ps.subrange(0, i + 1).drop_last() =~= ps.subrange(0, i as int));
            assert(ps.subrange(0, i + 1).last() == p);
            assert(map_of(ps.subrange(0, i + 1)) == map_of(ps.subrange(0, i as int)).insert(p.0, p.1));
            assert(kv == p.0 && vv == p.1@);
            assert(r@.map_values(|k: Vec<u8>| k@) =~= before.map_values(|k: Vec<u8>| k@).insert(kv, vv));
            assert(map_of(ps.subrange(0, i + 1)).map_values(|k: Vec<u8>| k@) =~= map_of(
                ps.subrange(0, i as int),
            ).map_values(|k: Vec<u8>| k@).insert(p.0, p.1@));
        }
        i = i + 1;
    }
    assert(keys.pairs().subrange(0, n as int) =~= keys.pairs());
    r
}

impl Keystore {
    /// An empty store whose file lives in `data_dir`. Creating the directory is
    /// the caller's part.
    pub fn with_dir(data_dir: PathBuf) -> (ks: Keystore)
        ensures
            ks@ == Map::<Seq<char>, Seq<u8>>::empty(),
            ks.directory() == data_dir,
    {
        let ks = Keystore { data_dir, keys: StrMap::new() };
        assert(ks@ =~= Map::<Seq<char>, Seq<u8>>::empty());
        ks
    }

    /// The directory the keys file lives in.
    pub fn data_dir(&self) -> (r: &PathBuf)
        ensures
            *r == self.directory(),
    {
        &self.data_dir
    }

    pub fn get(&self, mac: &str) -> (r: Option<Vec<u8>>)
        ensures
            match r {
                Some(k) => self@.contains_key(mac@) && k@ == self@[mac@],
                None => !self@.contains_key(mac@),
            },
    {
        match self.keys.get(mac) {
            Some(k) => Some(slice_to_vec(k.as_slice())),
            None => None,
        }
    }

    /// Stores a key; an empty one is refused.
    pub fn set(&mut self, mac: &str, key: &[u8]) -> (r: Result<(), KeystoreError>)
        ensures
            key@.len() == 0 ==> r == Err::<(), KeystoreError>(KeystoreError::EmptyKey) && final(self)@
                == old(self)@,
            key@.len() > 0 ==> r is Ok && final(self)@ == old(self)@.insert(mac@, key@),
    {
        if key.len() == 0 {
            return Err(KeystoreError::EmptyKey);
        }
        let v = slice_to_vec(key);
        self.keys.insert(copy_str(mac), v);
        assert(self@ =~= old(self)@.insert(mac@, key@));
        Ok(())
    }

    pub fn remove(&mut self, mac: &str)
        ensures
            final(self)@ == old(self)@.remove(mac@),
    {
        self.keys.remove(mac);
        assert(self@ =~= old(self)@.remove(mac@));
    }

    /// The MACs with a key, each once.
    pub fn list(&self) -> (r: Vec<String>)
        ensures
            forall|i: int, j: int| 0 <= i < r@.len() && 0 <= j < r@.len() && i != j ==> r@[i]@ != r@[j]@,
            forall|mac: Seq<char>| self@.contains_key(mac) <==> exists|i: int| 0 <= i < r@.len() && #[trigger] r@[i]@ == mac,
    {
        let n = self.keys.len();
        let r = self.keys.keys();
        proof {
            let ps = self.keys.pairs();
            lemma_map_of(ps);
            assert forall|mac: Seq<char>| self@.contains_key(mac) <==> exists|i: int| 0 <= i < r@.len() && #[trigger] r@[i]@ == mac by {
                if self@.contains_key(mac) {
                    assert(has_key(ps, mac));
                    let i = choose|i: int| 0 <= i < ps.len() && ps[i].0 == mac;
                    assert(r@[i]@ == mac);
                }
                if exists|i: int| 0 <= i < r@.len() && #[trigger] r@[i]@ == mac {
                    let i = choose|i: int| 0 <= i < r@.len() && #[trigger] r@[i]@ == mac;
                    assert(ps[i].0 == mac);
                    assert(has_key(ps, mac));
                }
            }
            assert forall|i: int, j: int| 0 <= i < r@.len() && 0 <= j < r@.len() && i != j implies r@[i]@ != r@[j]@ by {
                assert(r@[i]@ == ps[i].0 && r@[j]@ == ps[j].0);
            }
        }
        r
    }

    pub fn clear(&mut self)
        ensures
            final(self)@ == Map::<Seq<char>, Seq<u8>>::empty(),
    {
        self.keys.clear();
        assert(self@ =~= Map::<Seq<char>, Seq<u8>>::empty());
    }

    /// A copy of every key.
    pub fn all(&self) -> (r: StrMap<Vec<u8>>)
        ensures
            r@.map_values(|k: Vec<u8>| k@) == self@,
    {
        copy_keys(&self.keys)
    }

    /// Number of stored keys.
    pub fn len(&self) -> (n: usize)
        ensures
            n == self@.len(),
    {
        let n = self.keys.len();
        assert(self@.dom() =~= self.keys@.dom());
        n
    }

    /// Every key is short enough to be written out: what `encoded_entries` needs.
    pub fn fits_encoding(&self) -> (r: bool)
        ensures
            r == encodable(self@),
    {
        let n = self.keys.len();
        let ghost ps = self.keys.pairs();
        proof {
            lemma_map_of(ps);
        }
        let mut i: usize = 0;
        while i < n
            invariant
                n == ps.len(),
                ps == self.keys.pairs(),
                distinct_keys(ps),
                self@ == map_of(ps).map_values(|k: Vec<u8>| k@),
                forall|t: int| 0 <= t < n ==> #[trigger] map_of(ps)[ps[t].0] == ps[t].1,
                forall|k: Seq<char>| #[trigger] map_of(ps).dom().contains(k) <==> has_key(ps, k),
                i <= n,
                forall|t: int| 0 <= t < i ==> (#[trigger] ps[t]).1@.len() <= usize::MAX / 4,
            decreases n - i,
        {
            if self.keys.value_at(i).len() > usize::MAX / 4 {
                proof {
                    assert(has_key(ps, ps[i as int].0));
                    assert(self@.contains_key(ps[i as int].0));
                }
                return false;
            }
            i = i + 1;
        }
        proof {
            assert forall|mac: Seq<char>| #[trigger] self@.contains_key(mac) implies self@[mac].len() <= usize::MAX / 4 by {
                let t = choose|t: int| 0 <= t < ps.len() && ps[t].0 == mac;
                assert(ps[t].1@.len() <= usize::MAX / 4);
            }
        }
        true
    }

    /// The keys file's entries: each MAC with its key in base64, in the order the
    /// MACs were first stored. Reading them back gives exactly these keys.
    pub fn encoded_entries(&self) -> (r: Vec<(String, String)>)
        requires
            encodable(self@),
        ensures
            r@.len() == self@.len(),
            forall|mac: Seq<char>| self@.contains_key(mac) <==> exists|i: int| 0 <= i < r@.len() && #[trigger] r@[i].0@ == mac,
            forall|i: int| 0 <= i < r@.len() ==> #[trigger] r@[i].1@ == base64_encoding(self@[r@[i].0@]),
            decoded_keys(entries_view(r@)) == Ok::<Map<Seq<char>, Seq<u8>>, Seq<char>>(self@),
    {
        let n = self.keys.len();
        let ghost ps = self.keys.pairs();
        proof {
            lemma_map_of(ps);
            assert(self@.dom() =~= map_of(ps).dom());
        }
        let mut r: Vec<(String, String)> = Vec::new();
        let mut i: usize = 0;
        assert(entries_view(r@) =~= Seq::<(Seq<char>, Seq<char>)>::empty());
        assert(ps.subrange(0, 0) =~= Seq::<(Seq<char>, Vec<u8>)>::empty());
        assert(map_of(ps.subrange(0, 0)).map_values(|k: Vec<u8>| k@) =~= Map::<Seq<char>, Seq<u8>>::empty());
        while i < n
            invariant
                n == ps.len(),
                ps == self.keys.pairs(),
                distinct_keys(ps),
                encodable(self@),
                self@ == map_of(ps).map_values(|k: Vec<u8>| k@),
                forall|j: int| 0 <= j < n ==> #[trigger] map_of(ps)[ps[j].0] == ps[j].1,
                forall|k: Seq<char>| #[trigger] map_of(ps).dom().contains(k) <==> has_key(ps, k),
                i <= n,
                r@.len() == i,
                n == self@.len(),
                forall|j: int| 0 <= j < i ==> #[trigger] r@[j].0@ == ps[j].0,
                forall|j: int| 0 <= j < i ==> #[trigger] r@[j].1@ == base64_encoding(ps[j].1@),
                decoded_keys(entries_view(r@)) == Ok::<Map<Seq<char>, Seq<u8>>, Seq<char>>(
                    map_of(ps.subrange(0, i as int)).map_values(|k: Vec<u8>| k@),
                ),
            decreases n - i,
        {
            let k = self.keys.value_at(i);
            assert(has_key(ps, ps[i as int].0));
            assert(map_of(ps)[ps[i as int].0] == ps[i as int].1);
            assert(self@.contains_key(ps[i as int].0));
            assert(k@.len() <= usize::MAX / 4);
            let text = encode_base64(k.as_slice());
            let mac = self.keys.key_at(i).clone();
            let ghost before = r@;
            r.push((mac, text));
            proof {
                assert(entries_view(r@).drop_last() =~= entries_view(before));
                assert(ps.subrange(0, i + 1).drop_last() =~= ps.subrange(0, i as int));
                assert(map_of(ps.subrange(0, i + 1)).map_values(|k: Vec<u8>| k@) =~= map_of(
                    ps.subrange(0, i as int),
                ).map_values(|k: Vec<u8>| k@).insert(ps[i as int].0, ps[i as int].1@));
            }
            i = i + 1;
        }
        proof {
            assert(ps.subrange(0, n as int) =~= ps);
            assert forall|mac: Seq<char>| self@.contains_key(mac) <==> exists|j: int| 0 <= j < r@.len() && #[trigger] r@[j].0@ == mac by {
                if self@.contains_key(mac) {
                    let j = choose|j: int| 0 <= j < ps.len() && ps[j].0 == mac;
                    assert(r@[j].0@ == mac);
                }
                if exists|j: int| 0 <= j < r@.len() && #[trigger] r@[j].0@ == mac {
                    let j = choose|j: int| 0 <= j < r@.len() && #[trigger] r@[j].0@ == mac;
                    assert(ps[j].0 == mac);
                    assert(has_key(ps, mac));
                }
            }
            assert forall|j: int| 0 <= j < r@.len() implies #[trigger] r@[j].1@ == base64_encoding(self@[r@[j].0@]) by {
                assert(r@[j].0@ == ps[j].0);
                assert(map_of(ps)[ps[j].0] == ps[j].1);
            }
        }
        r
    }

    /// Replaces the keys with those the file's entries hold. The first entry that
    /// does not decode is reported, and the keys are then left as they were.
    pub fn load_entries(&mut self, entries: &Vec<(String, String)>) -> (r: Result<StrMap<Vec<u8>>, KeystoreError>)
        ensures
            match decoded_keys(entries_view(entries@)) {
                Ok(m) => r matches Ok(keys) && keys@.map_values(|k: Vec<u8>| k@) == m && final(self)@ == m,
                Err(mac) => r matches Err(KeystoreError::BadKey(s)) && s@ == mac && final(self)@ == old(self)@,
            },
    {
        let mut keys: StrMap<Vec<u8>> = StrMap::new();
        let mut i: usize = 0;
        assert(entries_view(entries@.subrange(0, 0)) =~= Seq::<(Seq<char>, Seq<char>)>::empty());
        assert(keys@.map_values(|k: Vec<u8>| k@) =~= Map::<Seq<char>, Seq<u8>>::empty());
        while i < entries.len()
            invariant
                i <= entries@.len(),
                decoded_keys(entries_view(entries@.subrange(0, i as int))) == Ok::<Map<Seq<char>, Seq<u8>>, Seq<char>>(
                    keys@.map_values(|k: Vec<u8>| k@),
                ),
            decreases entries@.len() - i,
        {
            let ghost before = keys@;
            proof {
                assert(entries_view(entries@.subrange(0, i + 1)).drop_last() =~= entries_view(
                    entries@.subrange(0, i as int),
                ));
                assert(entries_view(entries@.subrange(0, i + 1)).last() == (entries@[i as int].0@, entries@[i as int].1@));
            }
            match decode_base64(entries[i].1.as_str()) {
                Some(k) => {
                    let ghost kv = k@;
                    keys.insert(entries[i].0.clone(), k);
                    assert(keys@.map_values(|k: Vec<u8>| k@) =~= before.map_values(|k: Vec<u8>| k@).insert(
                        entries@[i as int].0@,
                        kv,
                    ));
                },
                None => {
                    proof {
                        lemma_decoded_keys_error_persists(entries_view(entries@), i + 1);
                        assert(entries_view(entries@).subrange(0, i + 1) =~= entries_view(entries@.subrange(0, i + 1)));
                    }
                    return Err(KeystoreError::BadKey(entries[i].0.clone()));
                },
            }
            i = i + 1;
        }
        assert(entries@.subrange(0, i as int) =~= entries@);
        let copy = copy_keys(&keys);
        self.keys = keys;
        Ok(copy)
    }
}

/// Once a prefix of the entries fails to decode, the whole list fails the same way.
pub proof fn lemma_decoded_keys_error_persists(es: Seq<(Seq<char>, Seq<char>)>, n: int)
    requires
        0 <= n <= es.len(),
        decoded_keys(es.subrange(0, n)) is Err,
    ensures
        decoded_keys(es) == decoded_keys(es.subrange(0, n)),
    decreases es.len() - n,
{
    if n < es.len() {
        assert(es.subrange(0, n + 1).drop_last() =~= es.subrange(0, n));
        lemma_decoded_keys_error_persists(es, n + 1);
    } else {
        assert(es.subrange(0, n) =~= es);
    }
}

/// What a store gives back of a write: after `set` of a non-empty key, `get`
/// of that MAC returns it, and every other MAC keeps its key.
pub proof fn lemma_get_after_set(before: Map<Seq<char>, Seq<u8>>, mac: Seq<char>, key: Seq<u8>, other: Seq<char>)
    requires
        key.len() > 0,
        other != mac,
    ensures
        before.insert(mac, key).contains_key(mac),
        before.insert(mac, key)[mac] == key,
        before.insert(mac, key).contains_key(other) == before.contains_key(other),
        before.contains_key(other) ==> before.insert(mac, key)[other] == before[other],
{
}

} // verus!
