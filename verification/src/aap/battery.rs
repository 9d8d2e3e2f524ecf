//! AAP battery status packet parsing.
//!
//! Format: 04 00 04 00 04 00 [count] ([component] 01 [level] [status] 01)...
use vstd::prelude::*;

verus! {

/// Which physical component a battery reading belongs to.
#[derive(Debug, Clone, Copy, PartialEq, Eq, Structural)]
pub enum Component {
    Right,
    Left,
    Case,
    Unknown(u8),
}

/// The component a wire byte names.
pub open spec fn component_of(v: u8) -> Component {
    if v == 2 {
        Component::Right
    } else if v == 4 {
        Component::Left
    } else if v == 8 {
        Component::Case
    } else {
        Component::Unknown(v)
    }
}

impl Component {
    /// The component a wire byte names.
    pub fn from_byte(v: u8) -> (r: Component)
        ensures
            r == component_of(v),
    {
        match v {
            2 => Component::Right,
            4 => Component::Left,
            8 => Component::Case,
            other => Component::Unknown(other),
        }
    }

    /// The component's name.
    pub fn name(&self) -> (r: &'static str)
        ensures
            r@ == match *self {
                Component::Right => "Right"@,
                Component::Left => "Left"@,
                Component::Case => "Case"@,
                Component::Unknown(_) => "Unknown"@,
            },
    {
        match self {
            Component::Right => "Right",
            Component::Left => "Left",
            Component::Case => "Case",
            Component::Unknown(_) => "Unknown",
        }
    }
}

impl From<u8> for Component {
    fn from(v: u8) -> (r: Self) {
        Component::from_byte(v)
    }
}

impl vstd::std_specs::convert::FromSpecImpl<u8> for Component {
    open spec fn obeys_from_spec() -> bool {
        true
    }

    open spec fn from_spec(v: u8) -> Component {
        component_of(v)
    }
}

#[derive(Debug, Clone, Copy, PartialEq, Eq, Structural)]
pub enum Status {
    Charging,
    Discharging,
    Disconnected,
    Unknown(u8),
}

/// The status a wire byte names.
pub open spec fn status_of(v: u8) -> Status {
    if v == 1 {
        Status::Charging
    } else if v == 2 {
        Status::Discharging
    } else if v == 4 {
        Status::Disconnected
    } else {
        Status::Unknown(v)
    }
}

impl Status {
    /// The status a wire byte names.
    pub fn from_byte(v: u8) -> (r: Status)
        ensures
            r == status_of(v),
    {
        match v {
            1 => Status::Charging,
            2 => Status::Discharging,
            4 => Status::Disconnected,
            other => Status::Unknown(other),
        }
    }

    /// The status's name.
    pub fn name(&self) -> (r: &'static str)
        ensures
            r@ == match *self {
                Status::Charging => "Charging"@,
                Status::Discharging => "Discharging"@,
                Status::Disconnected => "Disconnected"@,
                Status::Unknown(_) => "Unknown"@,
            },
    {
        match self {
            Status::Charging => "Charging",
            Status::Discharging => "Discharging",
            Status::Disconnected => "Disconnected",
            Status::Unknown(_) => "Unknown",
        }
    }
}

impl From<u8> for Status {
    fn from(v: u8) -> (r: Self) {
        Status::from_byte(v)
    }
}

impl vstd::std_specs::convert::FromSpecImpl<u8> for Status {
    open spec fn obeys_from_spec() -> bool {
        true
    }

    open spec fn from_spec(v: u8) -> Status {
        status_of(v)
    }
}

#[derive(Debug, Clone, Copy, PartialEq, Eq, Structural)]
pub struct Battery {
    pub component: Component,
    /// `None` when the device reports a level above 100, which means unavailable.
    pub level: Option<u8>,
    pub status: Status,
}

impl Battery {
    pub fn is_charging(&self) -> (r: bool)
        ensures
            r == (self.status == Status::Charging),
    {
        match self.status {
            Status::Charging => true,
            _ => false,
        }
    }
}

#[derive(Debug, Clone, Copy, PartialEq, Eq, Structural)]
pub struct BatteryInfo {
    pub left: Option<Battery>,
    pub right: Option<Battery>,
    pub case: Option<Battery>,
}

/// No component reported.
pub open spec fn empty_info() -> BatteryInfo {
    BatteryInfo { left: None, right: None, case: None }
}

impl Default for BatteryInfo {
    fn default() -> (r: Self)
        ensures
            r == empty_info(),
    {
        BatteryInfo { left: None, right: None, case: None }
    }
}

#[derive(Debug, Clone, Copy, PartialEq, Eq, Structural)]
pub enum BatteryParseError {
    NotBatteryPacket,
    Incomplete(usize),
}

/// Header check: 04 00 04 00 04 00 followed by a count byte.
pub open spec fn is_battery_header(packet: Seq<u8>) -> bool {
    &&& packet.len() >= 7
    &&& packet[0] == 0x04 && packet[1] == 0x00 && packet[2] == 0x04
    &&& packet[3] == 0x00 && packet[4] == 0x04 && packet[5] == 0x00
}

/// The reading in the entry that starts at `offset`: [component] 01 [level] [status] 01.
pub open spec fn entry_at(packet: Seq<u8>, offset: int) -> Battery {
    Battery {
        component: component_of(packet[offset]),
        level: if packet[offset + 2] <= 100 { Some(packet[offset + 2]) } else { None },
        status: status_of(packet[offset + 3]),
    }
}

/// Files one reading under its component; unknown components are ignored.
pub open spec fn file_reading(info: BatteryInfo, b: Battery) -> BatteryInfo {
    match b.component {
        Component::Left => BatteryInfo { left: Some(b), ..info },
        Component::Right => BatteryInfo { right: Some(b), ..info },
        Component::Case => BatteryInfo { case: Some(b), ..info },
        Component::Unknown(_) => info,
    }
}

/// What the first `n` entries of a packet say; a later entry for the same
/// component replaces an earlier one.
pub open spec fn info_after(packet: Seq<u8>, n: nat) -> BatteryInfo
    decreases n,
{
    if n == 0 {
        empty_info()
    } else {
        file_reading(info_after(packet, (n - 1) as nat), entry_at(packet, 7 + 5 * (n - 1)))
    }
}

/// What `parse_battery_packet` returns for `packet`.
pub open spec fn battery_packet_result(packet: Seq<u8>) -> Result<BatteryInfo, BatteryParseError> {
    if !is_battery_header(packet) {
        Err(BatteryParseError::NotBatteryPacket)
    } else if 7 + 5 * packet[6] <= packet.len() {
        Ok(info_after(packet, packet[6] as nat))
    } else {
        Err(BatteryParseError::Incomplete((7 + 5 * ((packet.len() - 7) / 5)) as usize))
    }
}

pub fn is_battery_packet(packet: &[u8]) -> (r: bool)
    ensures
        r == is_battery_header(packet@),
{
    packet.len() >= 7 && packet[0] == 0x04 && packet[1] == 0x00 && packet[2] == 0x04
        && packet[3] == 0x00 && packet[4] == 0x04 && packet[5] == 0x00
}

pub fn parse_battery_packet(packet: &[u8]) -> (r: Result<BatteryInfo, BatteryParseError>)
    ensures
        r == battery_packet_result(packet@),
{
    if !is_battery_packet(packet) {
        return Err(BatteryParseError::NotBatteryPacket);
    }
    let count: usize = packet[6] as usize;
    let mut info = BatteryInfo { left: None, right: None, case: None };
    let mut offset: usize = 7;
    let mut i: usize = 0;
    while i < count
        invariant
            is_battery_header(packet@),
            count == packet@[6],
            i <= count,
            offset == 7 + 5 * i,
            offset <= packet@.len(),
            info == info_after(packet@, i as nat),
        decreases count - i,
    {
        // Each entry is 5 bytes: [component] 01 [level] [status] 01
        if offset + 5 > packet.len() {
            proof {
                assert((packet@.len() - 7) / 5 == i) by (nonlinear_arith)
                    requires
                        7 + 5 * i <= packet@.len() < 7 + 5 * i + 5,
                ;
                assert(7 + 5 * packet@[6] > packet@.len()) by (nonlinear_arith)
                    requires
                        i < packet@[6],
                        packet@.len() < 7 + 5 * i + 5,
                ;
            }
            return Err(BatteryParseError::Incomplete(offset));
        }
        let level = packet[offset + 2];
        let battery = Battery {
            component: Component::from_byte(packet[offset]),
            level: if level <= 100 { Some(level) } else { None },
            status: Status::from_byte(packet[offset + 3]),
        };
        match battery.component {
            Component::Left => info.left = Some(battery),
            Component::Right => info.right = Some(battery),
            Component::Case => info.case = Some(battery),
            Component::Unknown(_) => {},
        }
        offset = offset + 5;
        i = i + 1;
    }
    Ok(info)
}

/// Every level a parsed packet reports is at most 100: above that the device
/// means "unavailable", and the reading carries no level.
pub proof fn lemma_levels_at_most_100(packet: Seq<u8>, n: nat)
    ensures
        info_after(packet, n).left matches Some(b) ==> b.level matches Some(l) ==> l <= 100,
        info_after(packet, n).right matches Some(b) ==> b.level matches Some(l) ==> l <= 100,
        info_after(packet, n).case matches Some(b) ==> b.level matches Some(l) ==> l <= 100,
    decreases n,
{
    if n > 0 {
        lemma_levels_at_most_100(packet, (n - 1) as nat);
    }
}

/// A reading filed under a component is that component's reading.
pub proof fn lemma_readings_sit_under_their_component(packet: Seq<u8>, n: nat)
    ensures
        info_after(packet, n).left matches Some(b) ==> b.component == Component::Left,
        info_after(packet, n).right matches Some(b) ==> b.component == Component::Right,
        info_after(packet, n).case matches Some(b) ==> b.component == Component::Case,
    decreases n,
{
    if n > 0 {
        lemma_readings_sit_under_their_component(packet, (n - 1) as nat);
    }
}

/// The component byte of entry `k`.
pub open spec fn entry_byte(packet: Seq<u8>, k: int) -> u8 {
    packet[7 + 5 * k]
}

/// The reading a parsed packet holds for the component wire byte `c`: 0x04 the
/// left pod, 0x02 the right pod, 0x08 the case.
pub open spec fn reading_for_byte(info: BatteryInfo, c: u8) -> Option<Battery> {
    if c == 4 {
        info.left
    } else if c == 2 {
        info.right
    } else if c == 8 {
        info.case
    } else {
        None
    }
}

/// `r` is the reading of entry `j`: its level byte as the level (none above
/// 100), charging exactly when its status byte is 1.
pub open spec fn is_entry_reading(r: Option<Battery>, packet: Seq<u8>, j: int) -> bool {
    match r {
        Some(x) => x.level == (if packet[7 + 5 * j + 2] <= 100 {
            Some(packet[7 + 5 * j + 2])
        } else {
            None
        }) && (x.status == Status::Charging <==> packet[7 + 5 * j + 3] == 1),
        None => false,
    }
}

proof fn lemma_reading_from_last_entry(packet: Seq<u8>, n: nat, c: u8)
    requires
        c == 2 || c == 4 || c == 8,
    ensures
        (forall|k: int| 0 <= k < n ==> #[trigger] entry_byte(packet, k) != c) ==> reading_for_byte(
            info_after(packet, n),
            c,
        ) is None,
        forall|j: int|
            0 <= j < n && #[trigger] entry_byte(packet, j) == c && (forall|k: int|
                j < k < n ==> #[trigger] entry_byte(packet, k) != c) ==> is_entry_reading(reading_for_byte(info_after(packet, n), c), packet, j),
    decreases n,
{
    if n > 0 {
        let m = (n - 1) as nat;
        lemma_reading_from_last_entry(packet, m, c);
        let e = entry_byte(packet, m as int);
        assert(packet[7 + 5 * (m as int)] == e);
        if e == c {
            assert forall|j: int|
                0 <= j < n && #[trigger] entry_byte(packet, j) == c && (forall|k: int|
                    j < k < n ==> #[trigger] entry_byte(packet, k) != c) implies is_entry_reading(reading_for_byte(info_after(packet, n), c), packet, j) by {
                if j < m {
                    assert(entry_byte(packet, m as int) != c);
                }
            }
            assert((forall|k: int| 0 <= k < n ==> #[trigger] entry_byte(packet, k) != c) ==> entry_byte(packet, m as int) != c);
        } else {
            assert(reading_for_byte(info_after(packet, n), c) == reading_for_byte(info_after(packet, m), c));
            assert forall|j: int|
                0 <= j < n && #[trigger] entry_byte(packet, j) == c && (forall|k: int|
                    j < k < n ==> #[trigger] entry_byte(packet, k) != c) implies is_entry_reading(reading_for_byte(info_after(packet, n), c), packet, j) by {
                assert(j < m);
                assert(forall|k: int| j < k < m ==> #[trigger] entry_byte(packet, k) != c);
            }
        }
    }
}

/// What a battery packet reports, read off its entries: the left pod's reading
/// comes from the last entry whose component byte is 0x04, the right pod's from
/// the last with 0x02, the case's from the last with 0x08. That entry's level
/// byte is the level (none above 100) and status byte 1 means charging; a
/// component no entry names has no reading.
pub proof fn lemma_battery_packet_entries(packet: Seq<u8>, info: BatteryInfo, c: u8)
    requires
        battery_packet_result(packet) == Ok::<BatteryInfo, BatteryParseError>(info),
        c == 2 || c == 4 || c == 8,
    ensures
        (forall|k: int| 0 <= k < packet[6] ==> #[trigger] entry_byte(packet, k) != c) ==> reading_for_byte(info, c)
            is None,
        forall|j: int|
            0 <= j < packet[6] && #[trigger] entry_byte(packet, j) == c && (forall|k: int|
                j < k < packet[6] ==> #[trigger] entry_byte(packet, k) != c) ==> is_entry_reading(reading_for_byte(info, c), packet, j),
{
    lemma_reading_from_last_entry(packet, packet[6] as nat, c);
}

} // verus!
