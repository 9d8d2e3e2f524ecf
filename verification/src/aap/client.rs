//! What an Apple Accessory Protocol client sends, and how it connects.
//!
//! Protocol flow:
//!   1. Open an L2CAP connection to the AirPods (PSM 4097)
//!   2. Send the handshake
//!   3. Request battery notifications
//!   4. Parse incoming packets
//!
//! The socket itself is the program's part; this module holds the packets and
//! the decision the connect loop makes after each attempt.
use vstd::prelude::*;

verus! {

/// L2CAP Protocol/Service Multiplexer for AAP (4097).
pub const AAP_PSM: u16 = 0x1001;

/// Largest AAP packet read in one receive.
pub const READ_BUF_LEN: usize = 1024;

/// Connect attempts before giving up. The first attempt against an idle device
/// usually loses the race with the ACL link coming up.
pub const CONNECT_ATTEMPTS: usize = 6;

/// Pause between connect attempts, in milliseconds.
pub const CONNECT_BACKOFF_MS: u64 = 200;

/// Sent immediately after connecting to enable AAP communication.
pub const PACKET_HANDSHAKE: [u8; 16] = [
    0x00, 0x00, 0x04, 0x00, 0x01, 0x00, 0x02, 0x00, 0x00, 0x00, 0x00, 0x00, 0x00, 0x00, 0x00, 0x00,
];

/// Subscribes to battery status notifications.
pub const PACKET_BATTERY_REQUEST: [u8; 10] = [0x04, 0x00, 0x04, 0x00, 0x0F, 0x00, 0xFF, 0xFF, 0xFF, 0xFF];

/// Enables conversational awareness and adaptive transparency.
pub const PACKET_ENABLE_FEATURES: [u8; 14] = [
    0x04, 0x00, 0x04, 0x00, 0x4D, 0x00, 0xFF, 0x00, 0x00, 0x00, 0x00, 0x00, 0x00, 0x00,
];

/// Requests the proximity pairing encryption keys (IRK and ENC_KEY).
pub const PACKET_KEY_REQUEST: [u8; 8] = [0x04, 0x00, 0x04, 0x00, 0x30, 0x00, 0x05, 0x00];

/// How one connect attempt went.
#[derive(Debug, Clone, Copy, PartialEq, Eq, Structural)]
pub enum ConnectOutcome {
    /// Connected with a real channel id.
    Established,
    /// The call reported success but the channel id is zero: the ACL link was not
    /// up yet and the socket will never work.
    NoChannel,
    /// The call failed.
    Failed,
}

/// What the connect loop does next.
#[derive(Debug, Clone, Copy, PartialEq, Eq, Structural)]
pub enum ConnectStep {
    /// Keep the socket.
    Done,
    /// Drop the socket, wait the backoff, try again with a fresh one.
    Retry,
    /// Report the failure.
    GiveUp,
}

/// The decision after attempt number `attempt` (counting from 1).
pub fn after_connect_attempt(attempt: usize, outcome: ConnectOutcome) -> (r: ConnectStep)
    requires
        1 <= attempt <= CONNECT_ATTEMPTS,
    ensures
        outcome == ConnectOutcome::Established ==> r == ConnectStep::Done,
        outcome != ConnectOutcome::Established && attempt < CONNECT_ATTEMPTS ==> r == ConnectStep::Retry,
        outcome != ConnectOutcome::Established && attempt == CONNECT_ATTEMPTS ==> r == ConnectStep::GiveUp,
{
    match outcome {
        ConnectOutcome::Established => ConnectStep::Done,
        _ => if attempt < CONNECT_ATTEMPTS {
            ConnectStep::Retry
        } else {
            ConnectStep::GiveUp
        },
    }
}

/// A send went out whole.
pub fn send_complete(written: usize, packet_len: usize) -> (r: bool)
    ensures
        r == (written == packet_len),
{
    written == packet_len
}

} // verus!
