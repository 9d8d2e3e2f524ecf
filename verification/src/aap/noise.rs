//! Noise control mode over AAP: sub-command 0x0D of the 0x09 settings family.
//!
//! Format: 04 00 04 00 09 00 [sub-command] [value] 00 00 00
//!
//! The mode packet serves both directions: it is sent to switch mode, and the
//! device sends it in its startup dump and whenever the mode is changed from
//! another device. Off additionally needs sub-command 0x34, the setting that
//! permits it at all.
use vstd::prelude::*;

verus! {

/// Command byte position, shared by every AAP packet.
pub const CMD: usize = 4;

/// Sub-command position within the settings family.
pub const SUB_CMD: usize = 6;

/// Mode byte position.
pub const MODE: usize = 7;

/// The settings command family.
pub const CMD_SETTINGS: u8 = 0x09;

/// Noise control within the settings family.
pub const SUB_NOISE_CONTROL: u8 = 0x0D;

/// Whether Off is allowed as a listening mode at all.
pub const SUB_ALLOW_OFF: u8 = 0x34;

/// The enable value shared by the boolean settings in this family.
pub const ENABLED: u8 = 0x01;

/// The disable value shared by the boolean settings in this family (not 0x00).
pub const DISABLED: u8 = 0x02;

/// The four noise control modes an AirPods pair can be in.
#[derive(Debug, Clone, Copy, PartialEq, Eq, Structural)]
pub enum NoiseMode {
    Off,
    NoiseCancelling,
    Transparency,
    Adaptive,
}

/// The wire value of a mode.
pub open spec fn mode_byte(mode: NoiseMode) -> u8 {
    match mode {
        NoiseMode::Off => 0x01,
        NoiseMode::NoiseCancelling => 0x02,
        NoiseMode::Transparency => 0x03,
        NoiseMode::Adaptive => 0x04,
    }
}

/// The mode a wire value stands for, if any.
pub open spec fn mode_of_byte(value: u8) -> Option<NoiseMode> {
    if value == 0x01 {
        Some(NoiseMode::Off)
    } else if value == 0x02 {
        Some(NoiseMode::NoiseCancelling)
    } else if value == 0x03 {
        Some(NoiseMode::Transparency)
    } else if value == 0x04 {
        Some(NoiseMode::Adaptive)
    } else {
        None
    }
}

/// The name shown for a mode.
pub open spec fn mode_label(mode: NoiseMode) -> Seq<char> {
    match mode {
        NoiseMode::Off => "Off"@,
        NoiseMode::NoiseCancelling => "Noise Cancelling"@,
        NoiseMode::Transparency => "Transparency"@,
        NoiseMode::Adaptive => "Adaptive"@,
    }
}

/// The one-line explanation shown for a mode.
pub open spec fn mode_description(mode: NoiseMode) -> Seq<char> {
    match mode {
        NoiseMode::Off => "Noise control disabled"@,
        NoiseMode::NoiseCancelling => "Block out background noise"@,
        NoiseMode::Transparency => "Hear the world around you"@,
        NoiseMode::Adaptive => "Automatically adjusts to your environment"@,
    }
}

impl NoiseMode {
    /// Presentation order, shared by the window and the tray so the two agree.
    /// Deliberately not the order of the wire values.
    pub const ALL: [NoiseMode; 4] = [
        NoiseMode::Transparency,
        NoiseMode::Adaptive,
        NoiseMode::NoiseCancelling,
        NoiseMode::Off,
    ];

    /// The mode byte, or `None` for a value outside the four known modes.
    pub fn from_byte(value: u8) -> (r: Option<NoiseMode>)
        ensures
            r == mode_of_byte(value),
    {
        match value {
            0x01 => Some(NoiseMode::Off),
            0x02 => Some(NoiseMode::NoiseCancelling),
            0x03 => Some(NoiseMode::Transparency),
            0x04 => Some(NoiseMode::Adaptive),
            _ => None,
        }
    }

    pub fn as_byte(self) -> (r: u8)
        ensures
            r == mode_byte(self),
    {
        match self {
            NoiseMode::Off => 0x01,
            NoiseMode::NoiseCancelling => 0x02,
            NoiseMode::Transparency => 0x03,
            NoiseMode::Adaptive => 0x04,
        }
    }

    pub fn label(self) -> (r: &'static str)
        ensures
            r@ == mode_label(self),
    {
        match self {
            NoiseMode::Off => "Off",
            NoiseMode::NoiseCancelling => "Noise Cancelling",
            NoiseMode::Transparency => "Transparency",
            NoiseMode::Adaptive => "Adaptive",
        }
    }

    /// One-line explanation, used as the subtitle of the window's rows.
    pub fn description(self) -> (r: &'static str)
        ensures
            r@ == mode_description(self),
    {
        match self {
            NoiseMode::Off => "Noise control disabled",
            NoiseMode::NoiseCancelling => "Block out background noise",
            NoiseMode::Transparency => "Hear the world around you",
            NoiseMode::Adaptive => "Automatically adjusts to your environment",
        }
    }
}

/// Recent firmware treats Off as opt-in: a bare Off command gets an error chime
/// and no mode change. Allowing Off is a change to the device that outlives the
/// session, so it goes out only when Off is what was asked for.
pub fn needs_allow_off(mode: NoiseMode) -> (r: bool)
    ensures
        r == (mode == NoiseMode::Off),
{
    match mode {
        NoiseMode::Off => true,
        _ => false,
    }
}

#[derive(Debug, Clone, Copy, PartialEq, Eq, Structural)]
pub enum NoiseParseError {
    NotNoiseControlPacket,
    UnknownMode(u8),
}

/// The 11-byte packet of one single-byte setting in the 0x09 family.
pub open spec fn settings_bytes(sub_cmd: u8, value: u8) -> Seq<u8> {
    seq![0x04u8, 0x00, 0x04, 0x00, CMD_SETTINGS, 0x00, sub_cmd, value, 0x00, 0x00, 0x00]
}

/// True for a noise control mode report.
pub open spec fn is_mode_report(packet: Seq<u8>) -> bool {
    packet.len() > MODE && packet[CMD as int] == CMD_SETTINGS && packet[SUB_CMD as int]
        == SUB_NOISE_CONTROL
}

/// One single-byte setting in the 0x09 family. Every command in it has this
/// shape; the trailing three bytes are unused.
pub fn settings_packet(sub_cmd: u8, value: u8) -> (r: [u8; 11])
    ensures
        r@ == settings_bytes(sub_cmd, value),
{
    let r = [0x04u8, 0x00, 0x04, 0x00, CMD_SETTINGS, 0x00, sub_cmd, value, 0x00, 0x00, 0x00];
    assert(r@ =~= settings_bytes(sub_cmd, value));
    r
}

/// The packet that switches the device to `mode`.
pub fn set_packet(mode: NoiseMode) -> (r: [u8; 11])
    ensures
        r@ == settings_bytes(SUB_NOISE_CONTROL, mode_byte(mode)),
{
    settings_packet(SUB_NOISE_CONTROL, mode.as_byte())
}

/// The packet that permits, or forbids, Off as a listening mode.
///
/// Recent firmware treats Off as opt-in: without this the AirPods answer
/// `set_packet(NoiseMode::Off)` with an error chime and stay in their mode.
/// It is a persistent device setting, so it is not something to send unasked.
pub fn allow_off_packet(allowed: bool) -> (r: [u8; 11])
    ensures
        r@ == settings_bytes(SUB_ALLOW_OFF, if allowed { ENABLED } else { DISABLED }),
{
    settings_packet(SUB_ALLOW_OFF, if allowed { ENABLED } else { DISABLED })
}

/// True for a mode report.
///
/// Byte 6 matters as much as byte 4: the 0x09 family carries a dozen other
/// sub-commands, all of which arrive in the startup dump.
pub fn is_noise_mode_packet(packet: &[u8]) -> (r: bool)
    ensures
        r == is_mode_report(packet@),
{
    packet.len() > MODE && packet[CMD] == CMD_SETTINGS && packet[SUB_CMD] == SUB_NOISE_CONTROL
}

/// Reads the mode out of a report.
pub fn parse_noise_mode_packet(packet: &[u8]) -> (r: Result<NoiseMode, NoiseParseError>)
    ensures
        !is_mode_report(packet@) ==> r == Err::<NoiseMode, NoiseParseError>(
            NoiseParseError::NotNoiseControlPacket,
        ),
        is_mode_report(packet@) ==> r == (match mode_of_byte(packet@[MODE as int]) {
            Some(m) => Ok(m),
            None => Err(NoiseParseError::UnknownMode(packet@[MODE as int])),
        }),
{
    if !is_noise_mode_packet(packet) {
        return Err(NoiseParseError::NotNoiseControlPacket);
    }
    match NoiseMode::from_byte(packet[MODE]) {
        Some(m) => Ok(m),
        None => Err(NoiseParseError::UnknownMode(packet[MODE])),
    }
}

/// Every mode survives the trip to its wire byte and back, and every byte that
/// names a mode is that mode's byte.
pub proof fn lemma_mode_byte_round_trip(mode: NoiseMode, value: u8)
    ensures
        mode_of_byte(mode_byte(mode)) == Some(mode),
        mode_of_byte(value) matches Some(m) ==> mode_byte(m) == value,
{
}

/// A mode's set packet is a mode report, and parses back to that mode.
pub proof fn lemma_set_packet_parses_back(mode: NoiseMode)
    ensures
        is_mode_report(settings_bytes(SUB_NOISE_CONTROL, mode_byte(mode))),
        settings_bytes(SUB_NOISE_CONTROL, mode_byte(mode))[MODE as int] == mode_byte(mode),
        mode_of_byte(settings_bytes(SUB_NOISE_CONTROL, mode_byte(mode))[MODE as int]) == Some(mode),
{
}

/// The allow-Off packet shares the mode report's command byte but is never
/// read as one, whatever its value.
pub proof fn lemma_allow_off_is_not_a_mode_report(allowed: bool)
    ensures
        !is_mode_report(settings_bytes(SUB_ALLOW_OFF, if allowed { ENABLED } else { DISABLED })),
{
}

/// The presentation order lists every mode exactly once.
pub proof fn lemma_all_lists_every_mode_once(mode: NoiseMode)
    ensures
        exists|i: int| 0 <= i < 4 && NoiseMode::ALL@[i] == mode,
        forall|i: int, j: int|
            0 <= i < 4 && 0 <= j < 4 && NoiseMode::ALL@[i] == mode && NoiseMode::ALL@[j] == mode ==> i == j,
{
    let all = NoiseMode::ALL@;
    assert(all[0] == NoiseMode::Transparency && all[1] == NoiseMode::Adaptive && all[2] == NoiseMode::NoiseCancelling
        && all[3] == NoiseMode::Off);
    match mode {
        NoiseMode::Transparency => assert(all[0] == mode),
        NoiseMode::Adaptive => assert(all[1] == mode),
        NoiseMode::NoiseCancelling => assert(all[2] == mode),
        NoiseMode::Off => assert(all[3] == mode),
    }
}

/// The wire values of the modes, as the device uses them: a mode report or set
/// packet carries 1 for Off, 2 for Noise Cancelling, 3 for Transparency and 4
/// for Adaptive at byte 7, after 04 00 04 00 09 00 0D.
pub proof fn lemma_mode_wire_values(mode: NoiseMode)
    ensures
        settings_bytes(SUB_NOISE_CONTROL, mode_byte(mode)) == seq![
            0x04u8, 0x00u8, 0x04u8, 0x00u8, 0x09u8, 0x00u8, 0x0Du8,
            match mode {
                NoiseMode::Off => 1u8,
                NoiseMode::NoiseCancelling => 2u8,
                NoiseMode::Transparency => 3u8,
                NoiseMode::Adaptive => 4u8,
            },
            0x00u8, 0x00u8, 0x00u8,
        ],
        mode_of_byte(1) == Some(NoiseMode::Off),
        mode_of_byte(2) == Some(NoiseMode::NoiseCancelling),
        mode_of_byte(3) == Some(NoiseMode::Transparency),
        mode_of_byte(4) == Some(NoiseMode::Adaptive),
        forall|v: u8| (v == 0 || v > 4) ==> #[trigger] mode_of_byte(v) is None,
{
    assert(settings_bytes(SUB_NOISE_CONTROL, mode_byte(mode)) =~= seq![
        0x04u8, 0x00u8, 0x04u8, 0x00u8, 0x09u8, 0x00u8, 0x0Du8,
        match mode {
            NoiseMode::Off => 1u8,
            NoiseMode::NoiseCancelling => 2u8,
            NoiseMode::Transparency => 3u8,
            NoiseMode::Adaptive => 4u8,
        },
        0x00u8, 0x00u8, 0x00u8,
    ]);
}

} // verus!
