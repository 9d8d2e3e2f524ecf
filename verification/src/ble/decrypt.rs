//! AES decryption of the encrypted portion of a proximity pairing advertisement.
//!
//! Single-block AES-128 (ECB); there is no IV or nonce in the advertisement, so
//! the raw block cipher is used directly. The decrypted payload carries the last
//! three bytes of its device's real MAC at offset 7 - zeroed while the device is
//! connected to a host - and that is what tells a right key from a wrong one.
use vstd::prelude::*;
use aes::Aes128;
use aes::cipher::{BlockDecrypt, KeyInit};
use aes::cipher::generic_array::GenericArray;

verus! {

/// Length of the encrypted portion of the advertisement payload.
pub const ENCRYPTED_LEN: usize = 16;

/// Length of an ENC_KEY.
pub const KEY_LEN: usize = 16;

/// Where the device's MAC suffix sits inside the decrypted payload.
pub const MAC_SUFFIX_START: usize = 7;

#[derive(Debug, Clone, Copy, PartialEq, Eq, Structural)]
pub enum DecryptError {
    BadDataLen(usize),
    BadKeyLen(usize),
    /// AES always "succeeds" on a wrong key, so the payload's own content is
    /// what tells whether this key belongs to this device.
    ValidationFailed,
}

/// The plaintext block that AES-128 decryption of `block` under `key` yields.
pub uninterp spec fn aes128_decrypt(key: Seq<u8>, block: Seq<u8>) -> Seq<u8>;

/// Decrypts one 16-byte block under a 16-byte key.
///
/// Trusted: `aes::Aes128` constructed with `KeyInit::new` and applied with
/// `BlockDecrypt::decrypt_block`. The claim is only that the result is the
/// AES-128 decryption of the block under the key, a function of the two
/// alone; the cipher itself is the crate's.
#[verifier::external_body]
fn aes128_decrypt_block(key: &[u8], block: &[u8]) -> (out: [u8; ENCRYPTED_LEN])
    requires
        key@.len() == KEY_LEN,
        block@.len() == ENCRYPTED_LEN,
    ensures
        out@ == aes128_decrypt(key@, block@),
{
    let cipher = Aes128::new(GenericArray::from_slice(key));
    let mut buf = GenericArray::clone_from_slice(block);
    cipher.decrypt_block(&mut buf);
    let mut out = [0u8; ENCRYPTED_LEN];
    out.copy_from_slice(buf.as_slice());
    out
}

// ---------------------------------------------------------------------------
// "AA:BB:CC:DD:EE:FF" -> its last three bytes
// ---------------------------------------------------------------------------

/// The pieces of `s` between colons, as `str::split(':')` yields them: an empty
/// string is one empty piece, and neighbouring colons leave an empty piece.
pub open spec fn split_colons(s: Seq<char>) -> Seq<Seq<char>>
    decreases s.len(),
{
    if s.len() == 0 {
        seq![Seq::<char>::empty()]
    } else {
        let prev = split_colons(s.drop_last());
        if s.last() == ':' {
            prev.push(Seq::<char>::empty())
        } else {
            prev.update(prev.len() - 1, prev.last().push(s.last()))
        }
    }
}

/// The value of one hexadecimal digit, either case.
pub open spec fn hex_digit_value(c: char) -> Option<nat> {
    if '0' <= c && c <= '9' {
        Some((c as nat - 48) as nat)
    } else if 'a' <= c && c <= 'f' {
        Some((c as nat - 87) as nat)
    } else if 'A' <= c && c <= 'F' {
        Some((c as nat - 55) as nat)
    } else {
        None
    }
}

/// True when every character is a hexadecimal digit.
pub open spec fn all_hex_digits(ds: Seq<char>) -> bool {
    forall|i: int| 0 <= i < ds.len() ==> (#[trigger] hex_digit_value(ds[i])) is Some
}

/// The number the hexadecimal digits spell, most significant first.
pub open spec fn hex_value(ds: Seq<char>) -> nat
    decreases ds.len(),
{
    if ds.len() == 0 {
        0
    } else {
        hex_value(ds.drop_last()) * 16 + hex_digit_value(ds.last())->0
    }
}

/// What `u8::from_str_radix(piece, 16)` accepts: an optional leading `+`,
/// then at least one hexadecimal digit, spelling at most 255.
pub open spec fn parse_hex_byte(piece: Seq<char>) -> Option<u8> {
    let ds = if piece.len() > 0 && piece[0] == '+' {
        piece.drop_first()
    } else {
        piece
    };
    if ds.len() > 0 && all_hex_digits(ds) && hex_value(ds) <= 255 {
        Some(hex_value(ds) as u8)
    } else {
        None
    }
}

/// The last three bytes of a MAC written as six colon-separated hex bytes.
pub open spec fn mac_suffix_of(mac: Seq<char>) -> Option<Seq<u8>> {
    let pieces = split_colons(mac);
    if pieces.len() == 6 && forall|i: int| 0 <= i < 6 ==> #[trigger] parse_hex_byte(pieces[i]) is Some {
        Some(
            seq![
                parse_hex_byte(pieces[3])->0,
                parse_hex_byte(pieces[4])->0,
                parse_hex_byte(pieces[5])->0,
            ],
        )
    } else {
        None
    }
}

proof fn lemma_split_nonempty(s: Seq<char>)
    ensures
        split_colons(s).len() >= 1,
    decreases s.len(),
{
    if s.len() > 0 {
        lemma_split_nonempty(s.drop_last());
    }
}

fn hex_digit_of(c: char) -> (r: Option<u8>)
    ensures
        match hex_digit_value(c) {
            Some(v) => r == Some(v as u8),
            None => r is None,
        },
{
    if '0' <= c && c <= '9' {
        Some(((c as u32) - 48) as u8)
    } else if 'a' <= c && c <= 'f' {
        Some(((c as u32) - 87) as u8)
    } else if 'A' <= c && c <= 'F' {
        Some(((c as u32) - 55) as u8)
    } else {
        None
    }
}

/// `u8::from_str_radix(piece, 16)`, on the piece's characters.
fn parse_hex_piece(piece: &Vec<char>) -> (r: Option<u8>)
    ensures
        r == parse_hex_byte(piece@),
{
    let start: usize = if piece.len() > 0 && piece[0] == '+' { 1 } else { 0 };
    let ghost ds = if piece@.len() > 0 && piece@[0] == '+' {
        piece@.drop_first()
    } else {
        piece@
    };
    assert(ds =~= piece@.subrange(start as int, piece@.len() as int));
    if start >= piece.len() {
        return None;
    }
    let mut value: u32 = 0;
    let mut i: usize = start;
    while i < piece.len()
        invariant
            start <= i <= piece@.len(),
            ds == piece@.subrange(start as int, piece@.len() as int),
            ds == (if piece@.len() > 0 && piece@[0] == '+' {
                piece@.drop_first()
            } else {
                piece@
            }),
            all_hex_digits(piece@.subrange(start as int, i as int)),
            value == hex_value(piece@.subrange(start as int, i as int)),
            value <= 255,
        decreases piece@.len() - i,
    {
        let ghost prefix = piece@.subrange(start as int, (i + 1) as int);
        assert(prefix.drop_last() =~= piece@.subrange(start as int, i as int));
        match hex_digit_of(piece[i]) {
            None => {
                assert(!all_hex_digits(ds)) by {
                    assert(ds[i - start] == piece@[i as int]);
                    assert(hex_digit_value(ds[i - start]) is None);
                }
                return None;
            },
            Some(d) => {
                let next: u32 = value * 16 + d as u32;
                assert(all_hex_digits(prefix)) by {
                    assert forall|k: int| 0 <= k < prefix.len() implies (#[trigger] hex_digit_value(prefix[k])) is Some by {
                        if k < prefix.len() - 1 {
                            assert(prefix[k] == piece@.subrange(start as int, i as int)[k]);
                        }
                    }
                }
                assert(prefix.last() == piece@[i as int]);
                assert(hex_value(prefix) == next);
                if next > 255 {
                    proof {
                        lemma_hex_prefix_bound(ds, (i + 1 - start) as int);
                        assert(ds.subrange(0, (i + 1 - start) as int) =~= prefix);
                    }
                    return None;
                }
                value = next;
            },
        }
        i = i + 1;
    }
    assert(piece@.subrange(start as int, i as int) =~= ds);
    Some(value as u8)
}

/// Once a prefix of all-hex digits exceeds a bound, so does the whole (the
/// value only grows as digits are appended).
proof fn lemma_hex_prefix_bound(ds: Seq<char>, k: int)
    requires
        0 <= k <= ds.len(),
    ensures
        all_hex_digits(ds) ==> hex_value(ds.subrange(0, k)) <= hex_value(ds),
    decreases ds.len() - k,
{
    if k < ds.len() && all_hex_digits(ds) {
        lemma_hex_prefix_bound(ds, k + 1);
        let p = ds.subrange(0, k + 1);
        assert(p.drop_last() =~= ds.subrange(0, k));
        assert(hex_digit_value(p.last()) is Some) by {
            assert(p.last() == ds[k]);
        }
    } else if k == ds.len() {
        assert(ds.subrange(0, k) =~= ds);
    }
}

/// Parses "AA:BB:CC:DD:EE:FF" into its last three bytes.
pub fn mac_suffix(mac_addr: &str) -> (r: Option<[u8; 3]>)
    ensures
        match (r, mac_suffix_of(mac_addr@)) {
            (Some(a), Some(b)) => a@ == b,
            (None, None) => true,
            _ => false,
        },
{
    let n = mac_addr.unicode_len();
    let mut parsed: Vec<Option<u8>> = Vec::new();
    let mut current: Vec<char> = Vec::new();
    let mut i: usize = 0;
    proof {
        assert(mac_addr@.subrange(0, 0) =~= Seq::<char>::empty());
    }
    while i < n
        invariant
            n == mac_addr@.len(),
            i <= n,
            split_colons(mac_addr@.subrange(0, i as int)).len() == parsed@.len() + 1,
            split_colons(mac_addr@.subrange(0, i as int)).last() == current@,
            forall|k: int|
                0 <= k < parsed@.len() ==> parsed@[k] == parse_hex_byte(
                    #[trigger] split_colons(mac_addr@.subrange(0, i as int))[k],
                ),
        decreases n - i,
    {
        let c = mac_addr.get_char(i);
        let ghost before = mac_addr@.subrange(0, i as int);
        let ghost after = mac_addr@.subrange(0, (i + 1) as int);
        proof {
            assert(after.drop_last() =~= before);
            lemma_split_nonempty(before);
        }
        if c == ':' {
            let p = parse_hex_piece(&current);
            parsed.push(p);
            current = Vec::new();
            assert(current@ =~= Seq::<char>::empty());
        } else {
            current.push(c);
        }
        i = i + 1;
    }
    assert(mac_addr@.subrange(0, n as int) =~= mac_addr@);
    let last = parse_hex_piece(&current);
    parsed.push(last);
    if parsed.len() != 6 {
        return None;
    }
    let mut k: usize = 0;
    while k < 6
        invariant
            k <= 6,
            parsed@.len() == 6,
            split_colons(mac_addr@).len() == 6,
            forall|j: int| 0 <= j < 6 ==> parsed@[j] == parse_hex_byte(#[trigger] split_colons(mac_addr@)[j]),
            forall|j: int| 0 <= j < k ==> parse_hex_byte(#[trigger] split_colons(mac_addr@)[j]) is Some,
        decreases 6 - k,
    {
        if parsed[k].is_none() {
            assert(parse_hex_byte(split_colons(mac_addr@)[k as int]) is None);
            return None;
        }
        k = k + 1;
    }
    let a = match parsed[3] { Some(v) => v, None => 0 };
    let b = match parsed[4] { Some(v) => v, None => 0 };
    let c = match parsed[5] { Some(v) => v, None => 0 };
    let out = [a, b, c];
    assert(out@ =~= mac_suffix_of(mac_addr@)->0);
    Some(out)
}

// ---------------------------------------------------------------------------
// Validation and decryption
// ---------------------------------------------------------------------------

/// True when the payload identifies the device `mac`: bytes 7..10 are the last
/// three bytes of its MAC, or zero, which the device sends in their place while
/// it is connected to a host. A MAC that does not parse matches nothing.
pub open spec fn payload_matches(decrypted: Seq<u8>, mac: Seq<char>) -> bool {
    match mac_suffix_of(mac) {
        None => false,
        Some(suffix) => {
            let got = decrypted.subrange(MAC_SUFFIX_START as int, MAC_SUFFIX_START + 3);
            got == suffix || got == seq![0u8, 0u8, 0u8]
        },
    }
}

/// True when the payload carries the last three bytes of `mac_addr` at offset 7,
/// or zeros there (a device connected to a host publishes its suffix zeroed).
///
/// Three exact bytes make a false positive about one in 16 million per key
/// tried; accepting the zeroed form too costs one bit of that.
pub fn matches_device(decrypted: &[u8; ENCRYPTED_LEN], mac_addr: &str) -> (r: bool)
    ensures
        r == payload_matches(decrypted@, mac_addr@),
{
    match mac_suffix(mac_addr) {
        None => false,
        Some(suffix) => {
            let same = decrypted[7] == suffix[0] && decrypted[8] == suffix[1] && decrypted[9]
                == suffix[2];
            let zero = decrypted[7] == 0 && decrypted[8] == 0 && decrypted[9] == 0;
            let ghost got = decrypted@.subrange(7, 10);
            assert(same == (got =~= suffix@));
            assert(zero == (got =~= seq![0u8, 0u8, 0u8]));
            same || zero
        },
    }
}

/// Single-block decryption with only the length checks.
pub open spec fn raw_decrypt_result(encrypted: Seq<u8>, key: Seq<u8>) -> Result<Seq<u8>, DecryptError> {
    if encrypted.len() != ENCRYPTED_LEN {
        Err(DecryptError::BadDataLen(encrypted.len() as usize))
    } else if key.len() != KEY_LEN {
        Err(DecryptError::BadKeyLen(key.len() as usize))
    } else {
        Ok(aes128_decrypt(key, encrypted))
    }
}

/// What `decrypt_for_device` returns: the plaintext when it identifies `mac`.
pub open spec fn device_decrypt_result(encrypted: Seq<u8>, key: Seq<u8>, mac: Seq<char>) -> Result<Seq<u8>, DecryptError> {
    match raw_decrypt_result(encrypted, key) {
        Err(e) => Err(e),
        Ok(plain) => if payload_matches(plain, mac) {
            Ok(plain)
        } else {
            Err(DecryptError::ValidationFailed)
        },
    }
}

/// Relates an executable result to its description.
pub open spec fn result_is(r: Result<[u8; ENCRYPTED_LEN], DecryptError>, spec: Result<Seq<u8>, DecryptError>) -> bool {
    match (r, spec) {
        (Ok(a), Ok(s)) => a@ == s,
        (Err(e), Err(f)) => e == f,
        _ => false,
    }
}

fn decrypt_block_only(encrypted: &[u8], key: &[u8]) -> (r: Result<[u8; ENCRYPTED_LEN], DecryptError>)
    ensures
        result_is(r, raw_decrypt_result(encrypted@, key@)),
{
    if encrypted.len() != ENCRYPTED_LEN {
        return Err(DecryptError::BadDataLen(encrypted.len()));
    }
    if key.len() != KEY_LEN {
        return Err(DecryptError::BadKeyLen(key.len()));
    }
    Ok(aes128_decrypt_block(key, encrypted))
}

/// Decrypts a 16-byte payload and checks it against the device the key belongs to.
///
/// The decrypted payload embeds the last three bytes of the device's real MAC at
/// offset 7, so it identifies its own device - which is exactly what is needed to
/// resolve a randomized BLE MAC back to a permanent one.
pub fn decrypt_for_device(encrypted: &[u8], key: &[u8], mac_addr: &str) -> (r: Result<[u8; ENCRYPTED_LEN], DecryptError>)
    ensures
        result_is(r, device_decrypt_result(encrypted@, key@, mac_addr@)),
{
    let decrypted = decrypt_block_only(encrypted, key)?;
    if matches_device(&decrypted, mac_addr) {
        Ok(decrypted)
    } else {
        Err(DecryptError::ValidationFailed)
    }
}

/// Decrypts without any validation. Exposed for probes and tests.
pub fn decrypt_raw(encrypted: &[u8], key: &[u8]) -> (r: Result<[u8; ENCRYPTED_LEN], DecryptError>)
    ensures
        result_is(r, raw_decrypt_result(encrypted@, key@)),
{
    decrypt_block_only(encrypted, key)
}

/// The magic-marker test: the upper nibble of byte 0 clear and byte 4 equal to
/// 0x2D.
pub open spec fn has_magic_marker(plain: Seq<u8>) -> bool {
    plain[0] < 16 && plain[4] == 0x2D
}

/// Decrypts and validates with the magic marker instead of the MAC suffix.
///
/// Kept for payloads of the older layout that carries the marker; the models
/// tested so far do not, and `decrypt_for_device` is what identification uses.
pub fn decrypt_proximity_payload(encrypted: &[u8], key: &[u8]) -> (r: Result<[u8; ENCRYPTED_LEN], DecryptError>)
    ensures
        result_is(r, match raw_decrypt_result(encrypted@, key@) {
            Err(e) => Err(e),
            Ok(plain) => if has_magic_marker(plain) {
                Ok(plain)
            } else {
                Err(DecryptError::ValidationFailed)
            },
        }),
{
    let out = decrypt_block_only(encrypted, key)?;
    let b0 = out[0];
    assert((b0 & 0xF0) == 0 <==> b0 < 16) by (bit_vector);
    if (b0 & 0xF0) != 0 || out[4] != 0x2D {
        return Err(DecryptError::ValidationFailed);
    }
    Ok(out)
}

/// A key identifies a device exactly when the block decrypted with it (a full
/// block, as every decryption handed back is) carries
/// that device's MAC suffix, or three zeros, at bytes 7, 8 and 9: the
/// plaintext handed back is the AES decryption of the block under the key, and
/// its bytes 7..10 are the last three bytes of the MAC (or zero). A block of the
/// wrong length, a key of the wrong length, or a MAC that does not read as six
/// hex bytes never identifies anything.
pub proof fn lemma_identification_checks_the_suffix(encrypted: Seq<u8>, key: Seq<u8>, mac: Seq<char>)
    requires
        aes128_decrypt(key, encrypted).len() == 16,
    ensures
        device_decrypt_result(encrypted, key, mac) matches Ok(plain) ==> {
            &&& encrypted.len() == 16 && key.len() == 16
            &&& plain == aes128_decrypt(key, encrypted)
            &&& mac_suffix_of(mac) matches Some(sfx) && ((plain[7] == sfx[0] && plain[8] == sfx[1] && plain[9]
                == sfx[2]) || (plain[7] == 0 && plain[8] == 0 && plain[9] == 0))
        },
        encrypted.len() == 16 && key.len() == 16 ==> (mac_suffix_of(mac) matches Some(sfx) ==> {
            let plain = aes128_decrypt(key, encrypted);
            ((plain[7] == sfx[0] && plain[8] == sfx[1] && plain[9] == sfx[2]) || (plain[7] == 0 && plain[8] == 0
                && plain[9] == 0)) ==> device_decrypt_result(encrypted, key, mac) == Ok::<Seq<u8>, DecryptError>(plain)
        }),
        mac_suffix_of(mac) is None ==> device_decrypt_result(encrypted, key, mac) is Err,
{
    let plain = aes128_decrypt(key, encrypted);
    let got = plain.subrange(7, 10);
    assert(got[0] == plain[7] && got[1] == plain[8] && got[2] == plain[9]);
    if let Some(sfx) = mac_suffix_of(mac) {
        assert(sfx.len() == 3);
        if (plain[7] == sfx[0] && plain[8] == sfx[1] && plain[9] == sfx[2]) {
            assert(got =~= sfx);
        }
        if (plain[7] == 0 && plain[8] == 0 && plain[9] == 0) {
            assert(got =~= seq![0u8, 0u8, 0u8]);
        }
    }
}

proof fn lemma_split_without_colon(p: Seq<char>)
    requires
        forall|i: int| 0 <= i < p.len() ==> p[i] != ':',
    ensures
        split_colons(p) == seq![p],
    decreases p.len(),
{
    if p.len() > 0 {
        lemma_split_without_colon(p.drop_last());
        assert(p.last() != ':');
        assert(p.drop_last().push(p.last()) =~= p);
        assert(seq![p.drop_last()].update(0, p.drop_last().push(p.last())) =~= seq![p]);
    } else {
        assert(p =~= Seq::<char>::empty());
    }
}

proof fn lemma_split_at_colon(s: Seq<char>, t: Seq<char>)
    ensures
        split_colons(s + seq![':'] + t) == split_colons(s) + split_colons(t),
    decreases t.len(),
{
    let u = s + seq![':'] + t;
    if t.len() == 0 {
        assert(u.drop_last() =~= s);
        assert(split_colons(t) =~= seq![Seq::<char>::empty()]);
        assert(split_colons(s).push(Seq::<char>::empty()) =~= split_colons(s) + split_colons(t));
    } else {
        let t0 = t.drop_last();
        assert(u.drop_last() =~= s + seq![':'] + t0);
        assert(u.last() == t.last());
        lemma_split_at_colon(s, t0);
        lemma_split_nonempty(t0);
        lemma_split_nonempty(s);
        let a = split_colons(s);
        let b = split_colons(t0);
        if t.last() == ':' {
            assert((a + b).push(Seq::<char>::empty()) =~= a + b.push(Seq::<char>::empty()));
        } else {
            assert((a + b).update((a + b).len() - 1, (a + b).last().push(t.last())) =~= a + b.update(
                b.len() - 1,
                b.last().push(t.last()),
            ));
        }
    }
}

proof fn lemma_hex_pair(q: Seq<char>)
    requires
        two_hex_digits(q),
    ensures
        parse_hex_byte(q) == Some(hex_pair_byte(q)),
{
    let s1 = seq![q[0]];
    let e = Seq::<char>::empty();
    assert(q[0] != '+');
    assert(q.drop_last() =~= s1);
    assert(s1.drop_last() =~= e);
    assert(hex_value(e) == 0);
    assert(s1.last() == q[0]);
    assert(hex_value(s1) == hex_digit_value(q[0])->0);
    assert(q.last() == q[1]);
    assert(hex_value(q) == hex_value(s1) * 16 + hex_digit_value(q[1])->0);
    assert(all_hex_digits(q));
}

/// Two hexadecimal digits.
pub open spec fn two_hex_digits(p: Seq<char>) -> bool {
    p.len() == 2 && hex_digit_value(p[0]) is Some && hex_digit_value(p[1]) is Some
}

/// The byte two hexadecimal digits spell, the first the high one.
pub open spec fn hex_pair_byte(p: Seq<char>) -> u8 {
    (16 * hex_digit_value(p[0])->0 + hex_digit_value(p[1])->0) as u8
}

/// A MAC written the usual way, six two-digit hex bytes joined by colons, names
/// its last three bytes (the fourth, fifth and sixth) as its suffix.
pub proof fn lemma_mac_suffix_is_the_last_three_bytes(p: Seq<Seq<char>>)
    requires
        p.len() == 6,
        forall|i: int| 0 <= i < 6 ==> two_hex_digits(#[trigger] p[i]),
    ensures
        mac_suffix_of(
            p[0] + seq![':'] + p[1] + seq![':'] + p[2] + seq![':'] + p[3] + seq![':'] + p[4] + seq![':'] + p[5],
        ) == Some(seq![hex_pair_byte(p[3]), hex_pair_byte(p[4]), hex_pair_byte(p[5])]),
{
    let c = seq![':'];
    assert forall|i: int| 0 <= i < 6 implies split_colons(#[trigger] p[i]) == seq![p[i]] by {
        assert(two_hex_digits(p[i]));
        assert forall|k: int| 0 <= k < p[i].len() implies p[i][k] != ':' by {
            assert(hex_digit_value(p[i][k]) is Some);
        }
        lemma_split_without_colon(p[i]);
    }
    let m1 = p[0];
    let m2 = m1 + c + p[1];
    let m3 = m2 + c + p[2];
    let m4 = m3 + c + p[3];
    let m5 = m4 + c + p[4];
    let m6 = m5 + c + p[5];
    lemma_split_at_colon(m1, p[1]);
    lemma_split_at_colon(m2, p[2]);
    lemma_split_at_colon(m3, p[3]);
    lemma_split_at_colon(m4, p[4]);
    lemma_split_at_colon(m5, p[5]);
    let pieces = split_colons(m6);
    assert(pieces =~= p);
    assert forall|i: int| 0 <= i < 6 implies parse_hex_byte(#[trigger] pieces[i]) == Some(hex_pair_byte(p[i])) by {
        lemma_hex_pair(p[i]);
    }
}

} // verus!
