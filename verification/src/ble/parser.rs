//! Apple Continuity proximity pairing parser.
//!
//! The AirPods advertise which pod is "primary", and when the right pod is
//! primary the battery nibbles, charging bits and ear-detection bits are all
//! swapped so that "left" and "right" always refer to the physical pods.
use vstd::prelude::*;
use vstd::slice::{slice_subrange, slice_to_vec};
use crate::ble::decrypt::ENCRYPTED_LEN;
use crate::text::{hex2, hex4, push_hex2, push_hex4};

verus! {

/// Message type of a proximity pairing advertisement.
pub const PROXIMITY_TYPE: u8 = 0x07;

/// First payload byte.
pub const PAYLOAD_PREFIX: u8 = 0x01;

/// Shortest payload that carries every cleartext field.
pub const MIN_PAYLOAD: usize = 10;

#[derive(Debug, Clone, Copy, PartialEq, Eq, Structural)]
pub enum ParseError {
    TooShort,
    NotProximity,
    Incomplete,
    PayloadTooShort,
    InvalidPrefix,
    BadDecryptedLen(usize),
}

/// Which pod is primary.
#[derive(Debug, Clone, Copy, PartialEq, Eq, Structural)]
pub enum PodSide {
    Unknown,
    Left,
    Right,
}

impl Default for PodSide {
    fn default() -> (r: Self)
        ensures
            r == PodSide::Unknown,
    {
        PodSide::Unknown
    }
}

#[derive(Debug, Clone, PartialEq, Eq)]
pub struct ProximityData {
    pub device_model: u16,
    pub status: u8,
    pub left_battery: Option<u8>,
    pub right_battery: Option<u8>,
    pub case_battery: Option<u8>,
    pub left_charging: bool,
    pub right_charging: bool,
    pub case_charging: bool,
    pub left_in_ear: bool,
    pub right_in_ear: bool,
    /// `None` while the earbuds are out of the case.
    pub lid_open: Option<bool>,
    pub color: u8,
    pub connection_state: u8,
    /// True when the right pod is primary.
    pub is_flipped: bool,
    pub raw_data: Vec<u8>,
    pub has_decrypted: bool,
    pub raw_decrypted: Option<[u8; ENCRYPTED_LEN]>,
}

impl Default for ProximityData {
    fn default() -> (r: Self)
        ensures
            r.device_model == 0 && r.status == 0 && r.left_battery is None && r.right_battery is None
                && r.case_battery is None && !r.left_charging && !r.right_charging
                && !r.case_charging && !r.left_in_ear && !r.right_in_ear && r.lid_open is None
                && r.color == 0 && r.connection_state == 0 && !r.is_flipped && r.raw_data@.len()
                == 0 && !r.has_decrypted && r.raw_decrypted is None,
    {
        ProximityData {
            device_model: 0,
            status: 0,
            left_battery: None,
            right_battery: None,
            case_battery: None,
            left_charging: false,
            right_charging: false,
            case_charging: false,
            left_in_ear: false,
            right_in_ear: false,
            lid_open: None,
            color: 0,
            connection_state: 0,
            is_flipped: false,
            raw_data: Vec::new(),
            has_decrypted: false,
            raw_decrypted: None,
        }
    }
}

/// 0x0-0x9 => 0-90% in 10% steps, 0xA-0xE => 100%, anything else => unknown.
pub open spec fn battery_of_nibble(nibble: u8) -> Option<u8> {
    if nibble <= 9 {
        Some((nibble * 10) as u8)
    } else if nibble <= 0xE {
        Some(100)
    } else {
        None
    }
}

/// Splits a decrypted battery byte: bit 7 is charging, bits 0-6 the level,
/// which above 100 means unknown.
pub open spec fn split_level(b: u8) -> (Option<u8>, bool) {
    let level = b & 0x7F;
    (if level <= 100 { Some(level) } else { None }, (b & 0x80) != 0)
}

/// The cleartext fields of a proximity pairing payload, read into `pd`.
pub open spec fn describes_payload(pd: ProximityData, payload: Seq<u8>) -> bool {
    let status = payload[3];
    let primary_left = ((status >> 5u8) & 0x01u8) == 1;
    let this_in_case = ((status >> 6u8) & 0x01u8) == 1;
    let flipped = !primary_left;
    let xor_factor = primary_left != this_in_case;
    let battery = payload[4];
    let (left_nibble, right_nibble) = if flipped {
        (battery & 0x0Fu8, (battery >> 4u8) & 0x0Fu8)
    } else {
        ((battery >> 4u8) & 0x0Fu8, battery & 0x0Fu8)
    };
    let charging = payload[5];
    let raw_right_charging = ((charging >> 5u8) & 0x01u8) != 0;
    let raw_left_charging = ((charging >> 4u8) & 0x01u8) != 0;
    let raw_left_in_ear = (status & 0x08u8) != 0;
    let raw_right_in_ear = (status & 0x02u8) != 0;
    let lid = payload[6];
    &&& pd.device_model == payload[1] * 256 + payload[2]
    &&& pd.status == status
    &&& pd.is_flipped == flipped
    &&& pd.color == payload[7]
    &&& pd.connection_state == payload[8]
    &&& pd.raw_data@ == payload
    &&& pd.left_battery == battery_of_nibble(left_nibble)
    &&& pd.right_battery == battery_of_nibble(right_nibble)
    &&& pd.case_battery == battery_of_nibble(charging & 0x0Fu8)
    &&& pd.case_charging == (((charging >> 6u8) & 0x01u8) != 0)
    &&& pd.left_charging == (if flipped { raw_right_charging } else { raw_left_charging })
    &&& pd.right_charging == (if flipped { raw_left_charging } else { raw_right_charging })
    &&& pd.left_in_ear == (if xor_factor { raw_right_in_ear } else { raw_left_in_ear })
    &&& pd.right_in_ear == (if xor_factor { raw_left_in_ear } else { raw_right_in_ear })
    &&& pd.lid_open == (if (lid >> 4u8) == 0x05 {
        Some(((lid >> 3u8) & 0x01u8) == 0)
    } else {
        None
    })
    &&& !pd.has_decrypted
    &&& pd.raw_decrypted is None
}

/// The error `parse_proximity_data` reports for `data`, if any.
pub open spec fn proximity_error(data: Seq<u8>) -> Option<ParseError> {
    if data.len() < 2 {
        Some(ParseError::TooShort)
    } else if data[0] != PROXIMITY_TYPE {
        Some(ParseError::NotProximity)
    } else if data.len() < 2 + data[1] {
        Some(ParseError::Incomplete)
    } else if data[1] < MIN_PAYLOAD {
        Some(ParseError::PayloadTooShort)
    } else if data[2] != PAYLOAD_PREFIX {
        Some(ParseError::InvalidPrefix)
    } else {
        None
    }
}

/// The payload an advertisement carries after its type and length bytes.
pub open spec fn payload_of(data: Seq<u8>) -> Seq<u8> {
    data.subrange(2, 2 + data[1])
}

/// The encrypted portion of a payload: its last 16 bytes.
pub open spec fn encrypted_part(payload: Seq<u8>) -> Option<Seq<u8>> {
    if payload.len() >= ENCRYPTED_LEN {
        Some(payload.subrange(payload.len() - ENCRYPTED_LEN, payload.len() as int))
    } else {
        None
    }
}

/// `pd` after the decrypted payload `dec` replaced its coarse battery data.
pub open spec fn merged_decrypted(old_pd: ProximityData, pd: ProximityData, dec: Seq<u8>) -> bool {
    let (bat1, chg1) = split_level(dec[1]);
    let (bat2, chg2) = split_level(dec[2]);
    let (case_bat, case_chg) = split_level(dec[3]);
    &&& pd.has_decrypted
    &&& pd.raw_decrypted matches Some(a) && a@ == dec
    &&& pd.left_battery == (if old_pd.is_flipped { bat2 } else { bat1 })
    &&& pd.right_battery == (if old_pd.is_flipped { bat1 } else { bat2 })
    &&& pd.left_charging == (if old_pd.is_flipped { chg2 } else { chg1 })
    &&& pd.right_charging == (if old_pd.is_flipped { chg1 } else { chg2 })
    &&& pd.case_battery == case_bat
    &&& pd.case_charging == (if case_bat is Some { case_chg } else { old_pd.case_charging })
    // Everything else is untouched.
    &&& pd.device_model == old_pd.device_model
    &&& pd.status == old_pd.status
    &&& pd.left_in_ear == old_pd.left_in_ear
    &&& pd.right_in_ear == old_pd.right_in_ear
    &&& pd.lid_open == old_pd.lid_open
    &&& pd.color == old_pd.color
    &&& pd.connection_state == old_pd.connection_state
    &&& pd.is_flipped == old_pd.is_flipped
    &&& pd.raw_data@ == old_pd.raw_data@
}

fn split_level_exec(b: u8) -> (r: (Option<u8>, bool))
    ensures
        r == split_level(b),
{
    let level = b & 0x7F;
    (if level <= 100 { Some(level) } else { None }, (b & 0x80) != 0)
}

impl ProximityData {
    /// The 16-byte encrypted slice: the last 16 bytes of the payload, if it is
    /// long enough to carry one.
    pub fn encrypted_portion(&self) -> (r: Option<&[u8]>)
        ensures
            match (r, encrypted_part(self.raw_data@)) {
                (Some(s), Some(t)) => s@ == t,
                (None, None) => true,
                _ => false,
            },
    {
        let n = self.raw_data.len();
        if n >= ENCRYPTED_LEN {
            Some(slice_subrange(self.raw_data.as_slice(), n - ENCRYPTED_LEN, n))
        } else {
            None
        }
    }

    /// Merges decrypted battery data, replacing the coarse 10%-granularity values
    /// from the cleartext advertisement with exact ones.
    ///
    /// Decrypted layout: byte 1 = first pod, byte 2 = second pod, byte 3 = case;
    /// in each, bit 7 is charging and bits 0-6 are the level.
    pub fn add_decrypted_data(&mut self, decrypted: &[u8]) -> (r: Result<(), ParseError>)
        ensures
            decrypted@.len() != ENCRYPTED_LEN ==> r == Err::<(), ParseError>(
                ParseError::BadDecryptedLen(decrypted@.len() as usize),
            ) && *final(self) == *old(self),
            decrypted@.len() == ENCRYPTED_LEN ==> r is Ok && merged_decrypted(
                *old(self),
                *final(self),
                decrypted@,
            ),
    {
        if decrypted.len() != ENCRYPTED_LEN {
            return Err(ParseError::BadDecryptedLen(decrypted.len()));
        }
        self.has_decrypted = true;
        let mut buf = [0u8; ENCRYPTED_LEN];
        let mut j: usize = 0;
        while j < ENCRYPTED_LEN
            invariant
                j <= ENCRYPTED_LEN,
                decrypted@.len() == ENCRYPTED_LEN,
                forall|k: int| 0 <= k < j ==> buf@[k] == decrypted@[k],
            decreases ENCRYPTED_LEN - j,
        {
            buf[j] = decrypted[j];
            j = j + 1;
        }
        assert(buf@ =~= decrypted@);
        self.raw_decrypted = Some(buf);

        let (bat1, chg1) = split_level_exec(decrypted[1]);
        let (bat2, chg2) = split_level_exec(decrypted[2]);
        let (case_bat, case_chg) = split_level_exec(decrypted[3]);

        if self.is_flipped {
            self.left_battery = bat2;
            self.right_battery = bat1;
            self.left_charging = chg2;
            self.right_charging = chg1;
        } else {
            self.left_battery = bat1;
            self.right_battery = bat2;
            self.left_charging = chg1;
            self.right_charging = chg2;
        }
        // Case is independent of flip.
        self.case_battery = case_bat;
        if case_bat.is_some() {
            self.case_charging = case_chg;
        }
        Ok(())
    }

    pub fn primary_pod(&self) -> (r: PodSide)
        ensures
            r == (if self.is_flipped { PodSide::Right } else { PodSide::Left }),
    {
        if self.is_flipped {
            PodSide::Right
        } else {
            PodSide::Left
        }
    }
}

/// Parses an Apple Continuity proximity pairing advertisement.
pub fn parse_proximity_data(data: &[u8]) -> (r: Result<ProximityData, ParseError>)
    ensures
        match proximity_error(data@) {
            Some(e) => r == Err::<ProximityData, ParseError>(e),
            None => r matches Ok(pd) && describes_payload(pd, payload_of(data@)),
        },
{
    if data.len() < 2 {
        return Err(ParseError::TooShort);
    }
    if data[0] != PROXIMITY_TYPE {
        return Err(ParseError::NotProximity);
    }
    let length: usize = data[1] as usize;
    if data.len() < 2 + length {
        return Err(ParseError::Incomplete);
    }
    let payload = slice_subrange(data, 2, 2 + length);
    if payload.len() < MIN_PAYLOAD {
        return Err(ParseError::PayloadTooShort);
    }
    if payload[0] != PAYLOAD_PREFIX {
        return Err(ParseError::InvalidPrefix);
    }

    let status = payload[3];
    let primary_left = ((status >> 5u8) & 0x01u8) == 1;
    let this_in_case = ((status >> 6u8) & 0x01u8) == 1;
    let is_flipped = !primary_left;
    // XOR decides whether ear-detection bits are swapped.
    let xor_factor = primary_left != this_in_case;

    let hi = payload[1] as u16;
    let lo = payload[2] as u16;
    let device_model: u16 = (hi << 8u16) | lo;
    assert(device_model == hi * 256 + lo) by (bit_vector)
        requires
            hi < 256,
            lo < 256,
            device_model == (hi << 8u16) | lo,
    ;

    // Battery nibbles from byte 4, swapped when flipped.
    let battery_byte = payload[4];
    let (left_nibble, right_nibble) = if is_flipped {
        (battery_byte & 0x0Fu8, (battery_byte >> 4u8) & 0x0Fu8)
    } else {
        ((battery_byte >> 4u8) & 0x0Fu8, battery_byte & 0x0Fu8)
    };

    // Byte 5 carries both the case battery nibble and the charging bits.
    let charging_byte = payload[5];
    let raw_right_charging = ((charging_byte >> 5u8) & 0x01u8) != 0;
    let raw_left_charging = ((charging_byte >> 4u8) & 0x01u8) != 0;
    let raw_left_in_ear = (status & 0x08u8) != 0;
    let raw_right_in_ear = (status & 0x02u8) != 0;

    // Lid: byte 6, bit 3 clear means open - but only while the earbuds are in the
    // case, which bits 4-7 report as 0x5 (0x1 out of it).
    let lid = payload[6];
    let lid_open = if (lid >> 4u8) == 0x05 {
        Some(((lid >> 3u8) & 0x01u8) == 0)
    } else {
        None
    };

    let pd = ProximityData {
        device_model,
        status,
        left_battery: decode_battery(left_nibble),
        right_battery: decode_battery(right_nibble),
        case_battery: decode_battery(charging_byte & 0x0Fu8),
        left_charging: if is_flipped { raw_right_charging } else { raw_left_charging },
        right_charging: if is_flipped { raw_left_charging } else { raw_right_charging },
        case_charging: ((charging_byte >> 6u8) & 0x01u8) != 0,
        left_in_ear: if xor_factor { raw_right_in_ear } else { raw_left_in_ear },
        right_in_ear: if xor_factor { raw_left_in_ear } else { raw_right_in_ear },
        lid_open,
        color: payload[7],
        // Byte 8, not 9 - 9 is the first byte of the encrypted portion.
        connection_state: payload[8],
        is_flipped,
        raw_data: slice_to_vec(payload),
        has_decrypted: false,
        raw_decrypted: None,
    };
    Ok(pd)
}

/// 0x0-0x9 => 0-90% in 10% steps, 0xA-0xE => 100%, 0xF => unknown.
pub fn decode_battery(nibble: u8) -> (r: Option<u8>)
    ensures
        r == battery_of_nibble(nibble),
{
    if nibble <= 9 {
        Some(nibble * 10)
    } else if nibble <= 0xE {
        Some(100)
    } else {
        None
    }
}

/// The name of a colour byte.
pub open spec fn color_name(color: u8) -> Seq<char> {
    if color == 0x00 {
        "White"@
    } else if color == 0x01 {
        "Black"@
    } else if color == 0x02 {
        "Red"@
    } else if color == 0x03 {
        "Blue"@
    } else if color == 0x04 {
        "Pink"@
    } else if color == 0x05 {
        "Gray"@
    } else if color == 0x06 {
        "Silver"@
    } else if color == 0x07 {
        "Gold"@
    } else if color == 0x08 {
        "Rose Gold"@
    } else if color == 0x09 {
        "Space Gray"@
    } else if color == 0x0A {
        "Dark Blue"@
    } else if color == 0x0B {
        "Light Blue"@
    } else if color == 0x0C {
        "Yellow"@
    } else {
        "Unknown (0x"@ + hex2(color) + ")"@
    }
}

/// "Unknown (0x" + two hex digits + ")".
fn unknown_byte(v: u8) -> (r: String)
    ensures
        r@ == "Unknown (0x"@ + hex2(v) + ")"@,
{
    let mut s = String::from_str("Unknown (0x");
    push_hex2(&mut s, v);
    s.append(")");
    s
}

pub fn decode_color(color: u8) -> (r: String)
    ensures
        r@ == color_name(color),
{
    match color {
        0x00 => String::from_str("White"),
        0x01 => String::from_str("Black"),
        0x02 => String::from_str("Red"),
        0x03 => String::from_str("Blue"),
        0x04 => String::from_str("Pink"),
        0x05 => String::from_str("Gray"),
        0x06 => String::from_str("Silver"),
        0x07 => String::from_str("Gold"),
        0x08 => String::from_str("Rose Gold"),
        0x09 => String::from_str("Space Gray"),
        0x0A => String::from_str("Dark Blue"),
        0x0B => String::from_str("Light Blue"),
        0x0C => String::from_str("Yellow"),
        other => unknown_byte(other),
    }
}

/// The name of a connection state byte.
pub open spec fn connection_state_name(state: u8) -> Seq<char> {
    if state == 0x00 {
        "Disconnected"@
    } else if state == 0x04 {
        "Idle"@
    } else if state == 0x05 {
        "Music"@
    } else if state == 0x06 {
        "Call"@
    } else if state == 0x07 {
        "Ringing"@
    } else if state == 0x09 {
        "Hanging Up"@
    } else if state == 0xFF {
        "Unknown"@
    } else {
        "Unknown (0x"@ + hex2(state) + ")"@
    }
}

pub fn decode_connection_state(state: u8) -> (r: String)
    ensures
        r@ == connection_state_name(state),
{
    match state {
        0x00 => String::from_str("Disconnected"),
        0x04 => String::from_str("Idle"),
        0x05 => String::from_str("Music"),
        0x06 => String::from_str("Call"),
        0x07 => String::from_str("Ringing"),
        0x09 => String::from_str("Hanging Up"),
        0xFF => String::from_str("Unknown"),
        other => unknown_byte(other),
    }
}

/// The name of a model id.
pub open spec fn model_name(device_model: u16) -> Seq<char> {
    if device_model == 0x0220 {
        "AirPods (2nd gen)"@
    } else if device_model == 0x0e20 {
        "AirPods Pro"@
    } else if device_model == 0x2420 {
        "AirPods Pro (2nd gen)"@
    } else if device_model == 0x2720 {
        "AirPods Pro 3"@
    } else {
        "Unknown (0x"@ + hex4(device_model) + ")"@
    }
}

pub fn decode_model_name(device_model: u16) -> (r: String)
    ensures
        r@ == model_name(device_model),
{
    match device_model {
        0x0220 => String::from_str("AirPods (2nd gen)"),
        0x0e20 => String::from_str("AirPods Pro"),
        0x2420 => String::from_str("AirPods Pro (2nd gen)"),
        0x2720 => String::from_str("AirPods Pro 3"),
        other => {
            let mut s = String::from_str("Unknown (0x");
            push_hex4(&mut s, other);
            s.append(")");
            s
        },
    }
}

/// The decrypted levels always override the cleartext ones with a value of at
/// most 100, or with "unknown".
pub proof fn lemma_decrypted_levels_at_most_100(b: u8)
    ensures
        split_level(b).0 matches Some(l) ==> l <= 100,
{
}

/// A cleartext battery nibble reads as a whole multiple of 10%, at most 100%,
/// or as "unknown".
pub proof fn lemma_battery_nibbles_are_percentages(nibble: u8)
    ensures
        battery_of_nibble(nibble) matches Some(l) ==> l <= 100 && l % 10 == 0,
{
}

/// A cleartext battery nibble as a level: tenths up to 9, full from 0xA to 0xE,
/// unknown at 0xF.
pub open spec fn coarse_level(n: u8) -> Option<u8> {
    if n < 10 {
        Some((10 * n) as u8)
    } else if n < 15 {
        Some(100u8)
    } else {
        None
    }
}

/// A decrypted level byte without its charging bit: the level, or unknown above 100.
pub open spec fn exact_level(b: u8) -> Option<u8> {
    if b % 128 <= 100 {
        Some((b % 128) as u8)
    } else {
        None
    }
}

proof fn lemma_byte_bits(b: u8)
    ensures
        (((b >> 5u8) & 0x01u8) == 1) == ((b & 0x20u8) != 0),
        (((b >> 6u8) & 0x01u8) == 1) == ((b & 0x40u8) != 0),
        (((b >> 5u8) & 0x01u8) != 0) == ((b & 0x20u8) != 0),
        (((b >> 4u8) & 0x01u8) != 0) == ((b & 0x10u8) != 0),
        (((b >> 6u8) & 0x01u8) != 0) == ((b & 0x40u8) != 0),
        (((b >> 3u8) & 0x01u8) == 0) == ((b & 0x08u8) == 0),
        ((b >> 4u8) & 0x0Fu8) == b / 16,
        (b >> 4u8) == b / 16,
        (b & 0x0Fu8) == b % 16,
        (b & 0x7Fu8) == b % 128,
        ((b & 0x80u8) != 0) == (b >= 128),
        b / 16 < 16,
{
    assert((((b >> 5u8) & 0x01u8) == 1) == ((b & 0x20u8) != 0)) by (bit_vector);
    assert((((b >> 6u8) & 0x01u8) == 1) == ((b & 0x40u8) != 0)) by (bit_vector);
    assert((((b >> 5u8) & 0x01u8) != 0) == ((b & 0x20u8) != 0)) by (bit_vector);
    assert((((b >> 4u8) & 0x01u8) != 0) == ((b & 0x10u8) != 0)) by (bit_vector);
    assert((((b >> 6u8) & 0x01u8) != 0) == ((b & 0x40u8) != 0)) by (bit_vector);
    assert((((b >> 3u8) & 0x01u8) == 0) == ((b & 0x08u8) == 0)) by (bit_vector);
    assert(((b >> 4u8) & 0x0Fu8) == b / 16) by (bit_vector);
    assert((b >> 4u8) == b / 16) by (bit_vector);
    assert((b & 0x0Fu8) == b % 16) by (bit_vector);
    assert((b & 0x7Fu8) == b % 128) by (bit_vector);
    assert(((b & 0x80u8) != 0) == (b >= 128)) by (bit_vector);
}

/// What a well-formed advertisement says, read straight off its bytes (the
/// payload starts at byte 2, so the status is byte 5, the pod nibbles byte 6,
/// the case nibble and charging bits byte 7, the lid byte 8). Bit 5 of the
/// status set means the left pod is primary: then the high nibble is the left
/// pod's level and charging bit 4 the left pod's, bit 5 the right pod's; with
/// bit 5 clear the right pod is primary and the two pods' nibbles and charging
/// bits are exchanged. The case's level and charging bit do not depend on it.
pub proof fn lemma_advertisement_bytes(data: Seq<u8>, pd: ProximityData)
    requires
        proximity_error(data) is None,
        describes_payload(pd, payload_of(data)),
    ensures
        pd.status == data[5],
        pd.device_model == data[3] * 256 + data[4],
        pd.color == data[9],
        pd.connection_state == data[10],
        pd.raw_data@ == data.subrange(2, 2 + data[1]),
        pd.is_flipped == ((data[5] & 0x20u8) == 0),
        (data[5] & 0x20u8) != 0 ==> pd.left_battery == coarse_level(data[6] / 16) && pd.right_battery
            == coarse_level(data[6] % 16) && pd.left_charging == ((data[7] & 0x10u8) != 0)
            && pd.right_charging == ((data[7] & 0x20u8) != 0),
        (data[5] & 0x20u8) == 0 ==> pd.right_battery == coarse_level(data[6] / 16) && pd.left_battery
            == coarse_level(data[6] % 16) && pd.right_charging == ((data[7] & 0x10u8) != 0)
            && pd.left_charging == ((data[7] & 0x20u8) != 0),
        pd.case_battery == coarse_level(data[7] % 16),
        pd.case_charging == ((data[7] & 0x40u8) != 0),
        ((data[5] & 0x20u8) != 0) == ((data[5] & 0x40u8) != 0) ==> pd.left_in_ear == ((data[5] & 0x08u8) != 0)
            && pd.right_in_ear == ((data[5] & 0x02u8) != 0),
        ((data[5] & 0x20u8) != 0) != ((data[5] & 0x40u8) != 0) ==> pd.left_in_ear == ((data[5] & 0x02u8) != 0)
            && pd.right_in_ear == ((data[5] & 0x08u8) != 0),
        data[8] / 16 == 5 ==> pd.lid_open == Some((data[8] & 0x08u8) == 0),
        data[8] / 16 != 5 ==> pd.lid_open is None,
        !pd.has_decrypted,
{
    let p = payload_of(data);
    assert(p[1] == data[3] && p[2] == data[4] && p[3] == data[5] && p[4] == data[6]);
    assert(p[5] == data[7] && p[6] == data[8] && p[7] == data[9] && p[8] == data[10]);
    lemma_byte_bits(data[5]);
    lemma_byte_bits(data[6]);
    lemma_byte_bits(data[7]);
    lemma_byte_bits(data[8]);
}

/// Merging a decrypted payload keeps each pod's level and charging flag
/// together: the primary pod's both come from decrypted byte 1 and the other
/// pod's from byte 2 (so with the right pod primary, the right pod takes byte
/// 1), bit 7 being the flag and the low seven bits the level. The case takes
/// byte 3, and keeps its old charging flag only when that byte's level is unknown.
pub proof fn lemma_decrypted_levels_keep_their_flags(old_pd: ProximityData, pd: ProximityData, dec: Seq<u8>)
    requires
        dec.len() == ENCRYPTED_LEN,
        merged_decrypted(old_pd, pd, dec),
    ensures
        !old_pd.is_flipped ==> pd.left_battery == exact_level(dec[1]) && pd.left_charging == (dec[1] >= 128)
            && pd.right_battery == exact_level(dec[2]) && pd.right_charging == (dec[2] >= 128),
        old_pd.is_flipped ==> pd.right_battery == exact_level(dec[1]) && pd.right_charging == (dec[1] >= 128)
            && pd.left_battery == exact_level(dec[2]) && pd.left_charging == (dec[2] >= 128),
        pd.case_battery == exact_level(dec[3]),
        exact_level(dec[3]) is Some ==> pd.case_charging == (dec[3] >= 128),
        exact_level(dec[3]) is None ==> pd.case_charging == old_pd.case_charging,
        pd.has_decrypted,
        pd.is_flipped == old_pd.is_flipped,
{
    lemma_byte_bits(dec[1]);
    lemma_byte_bits(dec[2]);
    lemma_byte_bits(dec[3]);
}

} // verus!
