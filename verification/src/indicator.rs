//! The system tray indicator's model.
//!
//! The tray host asks for the menu to be rebuilt from current state, so the menu
//! is a pure function of the indicator's fields rather than a set of per-item
//! callbacks; the StatusNotifierItem plumbing renders what `menu` lists.
use vstd::prelude::*;
use std::sync::Arc;
use crate::aap::noise::{NoiseMode, mode_label};
use crate::podstate::{DataSource, PodState, Snapshot, has_primary, is_primary, lowest_of};
use crate::text::{decimal, push_char, push_decimal};

verus! {

/// Actions the tray hands back to the application.
pub trait TrayActions: Send + Sync + 'static {
    fn show_window(&self);

    fn quit(&self);

    fn set_noise_mode(&self, mode: NoiseMode);
}

/// What a menu entry does when activated.
#[derive(Debug, Clone, Copy, PartialEq, Eq, Structural)]
pub enum TrayCommand {
    ShowWindow,
    Quit,
}

/// One entry of the tray menu.
#[derive(Debug, Clone)]
pub enum MenuEntry {
    /// A line of text that cannot be activated.
    Label(String),
    Separator,
    /// A noise control mode: checked when it is the device's, selectable only
    /// while an AAP link is up.
    Mode { mode: NoiseMode, label: String, checked: bool, enabled: bool },
    Command { label: String, command: TrayCommand },
}

/// The tray's state; `A` is what receives its commands.
pub struct Indicator<A: TrayActions + ?Sized> {
    pub left: Option<u8>,
    pub right: Option<u8>,
    pub case: Option<u8>,
    pub left_charging: bool,
    pub right_charging: bool,
    pub case_charging: bool,
    /// `None` until the connected device reports one: no mode is shown as
    /// checked rather than a guess.
    pub noise_mode: Option<NoiseMode>,
    /// Switching mode is a command, so the entries are only selectable while an
    /// AAP link is up; over BLE the tray is read-only.
    pub on_aap: bool,
    pub actions: Arc<A>,
}

/// `s` padded with spaces on the right to `width` characters.
pub open spec fn pad_right(s: Seq<char>, width: nat) -> Seq<char> {
    if s.len() >= width {
        s
    } else {
        s + Seq::new((width - s.len()) as nat, |i: int| ' ')
    }
}

/// "  Left : 80% ⚡": the name padded to five characters, the level, and a bolt
/// while charging; "--" for an unknown level.
pub open spec fn battery_line(name: Seq<char>, level: Option<u8>, charging: bool) -> Seq<char> {
    let head = "  "@ + pad_right(name, 5) + ": "@;
    match level {
        Some(v) => head + decimal(v as nat) + "%"@ + (if charging {
            " ⚡"@
        } else {
            Seq::<char>::empty()
        }),
        None => head + "--"@,
    }
}

/// A battery line of the tray menu.
pub fn battery_label(name: &str, level: Option<u8>, charging: bool) -> (r: String)
    ensures
        r@ == battery_line(name@, level, charging),
{
    let mut s = String::from_str("  ");
    s.append(name);
    let n = name.unicode_len();
    let mut k: usize = n;
    while k < 5
        invariant
            n == name@.len(),
            n <= k,
            n < 5 ==> k <= 5,
            n >= 5 ==> k == n,
            s@ == "  "@ + name@ + Seq::new((k - n) as nat, |i: int| ' '),
        decreases 5 - k,
    {
        push_char(&mut s, ' ');
        assert(s@ =~= "  "@ + name@ + Seq::new((k + 1 - n) as nat, |i: int| ' '));
        k = k + 1;
    }
    assert(Seq::new((k - n) as nat, |i: int| ' ') =~= (if n >= 5 { Seq::<char>::empty() } else { Seq::new((5 - n) as nat, |i: int| ' ') }));
    assert(s@ =~= "  "@ + pad_right(name@, 5));
    s.append(": ");
    match level {
        Some(v) => {
            push_decimal(&mut s, v as u64);
            s.append("%");
            if charging {
                s.append(" ⚡");
            }
        },
        None => {
            s.append("--");
        },
    }
    assert(s@ =~= battery_line(name@, level, charging));
    s
}

/// The tooltip: the lower earbud's level, or that AirPods are being searched for.
pub open spec fn tooltip_text(left: Option<u8>, right: Option<u8>) -> Seq<char> {
    match lowest_of(left, right) {
        Some(v) => "AirPods - "@ + decimal(v as nat) + "%"@,
        None => "Searching for AirPods..."@,
    }
}

/// The entry for `m`: its label, checked when it is the device's mode, and
/// selectable while on AAP.
pub open spec fn is_mode_entry<A: TrayActions + ?Sized>(e: MenuEntry, m: NoiseMode, ind: Indicator<A>) -> bool {
    match e {
        MenuEntry::Mode { mode, label, checked, enabled } => mode == m && label@ == mode_label(m) && checked == (
        ind.noise_mode == Some(m)) && enabled == ind.on_aap,
        _ => false,
    }
}

/// The menu the tray shows for the given fields.
pub open spec fn menu_is<A: TrayActions + ?Sized>(entries: Seq<MenuEntry>, ind: Indicator<A>) -> bool {
    &&& entries.len() == 14
    &&& entries[0] matches MenuEntry::Label(l) && l@ == "Battery Levels"@
    &&& entries[1] is Separator
    &&& entries[2] matches MenuEntry::Label(l) && l@ == battery_line("Left"@, ind.left, ind.left_charging)
    &&& entries[3] matches MenuEntry::Label(l) && l@ == battery_line("Right"@, ind.right, ind.right_charging)
    &&& entries[4] matches MenuEntry::Label(l) && l@ == battery_line("Case"@, ind.case, ind.case_charging)
    &&& entries[5] is Separator
    &&& entries[6] matches MenuEntry::Label(l) && l@ == "Noise Control"@
    &&& forall|i: int| 0 <= i < 4 ==> is_mode_entry(#[trigger] entries[7 + i], NoiseMode::ALL@[i], ind)
    &&& entries[11] is Separator
    &&& entries[12] matches MenuEntry::Command { label, command } && label@ == "Open LinuxPods"@ && command
        == TrayCommand::ShowWindow
    &&& entries[13] matches MenuEntry::Command { label, command } && label@ == "Quit"@ && command
        == TrayCommand::Quit
}

/// The tray shows `state`.
pub open spec fn shows<A: TrayActions + ?Sized>(ind: Indicator<A>, state: PodState) -> bool {
    &&& ind.left == state.left_battery
    &&& ind.right == state.right_battery
    &&& ind.case == state.case_battery
    &&& ind.left_charging == state.left_charging
    &&& ind.right_charging == state.right_charging
    &&& ind.case_charging == state.case_charging
    &&& ind.noise_mode == state.noise_mode
    &&& ind.on_aap == (state.source == DataSource::Aap)
}

impl<A: TrayActions + ?Sized> Indicator<A> {
    pub fn new(actions: Arc<A>) -> (r: Self)
        ensures
            r.left is None && r.right is None && r.case is None,
            !r.left_charging && !r.right_charging && !r.case_charging,
            r.noise_mode is None,
            !r.on_aap,
            r.actions == actions,
    {
        Indicator {
            left: None,
            right: None,
            case: None,
            left_charging: false,
            right_charging: false,
            case_charging: false,
            noise_mode: None,
            on_aap: false,
            actions,
        }
    }

    /// Where the tray's commands go.
    pub fn actions(&self) -> (r: &Arc<A>)
        ensures
            *r == self.actions,
    {
        &self.actions
    }

    /// Takes over a device's state.
    pub fn apply_state(&mut self, state: &PodState)
        ensures
            shows(*final(self), *state),
    {
        self.left = state.left_battery;
        self.right = state.right_battery;
        self.case = state.case_battery;
        self.left_charging = state.left_charging;
        self.right_charging = state.right_charging;
        self.case_charging = state.case_charging;
        self.noise_mode = state.noise_mode;
        self.on_aap = match state.source {
            DataSource::Aap => true,
            _ => false,
        };
    }

    /// Takes over the snapshot's primary device; without one the tray keeps what
    /// it shows. Returns whether anything was taken over.
    pub fn apply_snapshot(&mut self, snapshot: &Snapshot) -> (r: bool)
        ensures
            r == has_primary(snapshot.states@, snapshot.connected_macs@),
            r ==> exists|s: PodState| #[trigger] is_primary(snapshot.states@, snapshot.connected_macs@, s) && shows(*final(self), s),
            !r ==> final(self).left == old(self).left && final(self).right == old(self).right
                && final(self).case == old(self).case && final(self).noise_mode == old(self).noise_mode
                && final(self).on_aap == old(self).on_aap,
    {
        match snapshot.primary() {
            Some(state) => {
                self.apply_state(state);
                assert(is_primary(snapshot.states@, snapshot.connected_macs@, *state));
                true
            },
            None => false,
        }
    }

    /// The tooltip's text.
    pub fn tool_tip_description(&self) -> (r: String)
        ensures
            r@ == tooltip_text(self.left, self.right),
    {
        let lowest = match (self.left, self.right) {
            (Some(l), Some(r)) => Some(if l <= r { l } else { r }),
            (Some(v), None) => Some(v),
            (None, Some(v)) => Some(v),
            (None, None) => None,
        };
        match lowest {
            Some(v) => {
                let mut s = String::from_str("AirPods - ");
                push_decimal(&mut s, v as u64);
                s.append("%");
                s
            },
            None => String::from_str("Searching for AirPods..."),
        }
    }

    /// The menu, top to bottom.
    pub fn menu(&self) -> (r: Vec<MenuEntry>)
        ensures
            menu_is(r@, *self),
    {
        let mut items: Vec<MenuEntry> = Vec::new();
        items.push(MenuEntry::Label(String::from_str("Battery Levels")));
        items.push(MenuEntry::Separator);
        items.push(MenuEntry::Label(battery_label("Left", self.left, self.left_charging)));
        items.push(MenuEntry::Label(battery_label("Right", self.right, self.right_charging)));
        items.push(MenuEntry::Label(battery_label("Case", self.case, self.case_charging)));
        items.push(MenuEntry::Separator);
        items.push(MenuEntry::Label(String::from_str("Noise Control")));
        let modes = NoiseMode::ALL;
        let mut i: usize = 0;
        while i < 4
            invariant
                modes@ == NoiseMode::ALL@,
                i <= 4,
                items@.len() == 7 + i,
                items@[0] matches MenuEntry::Label(l) && l@ == "Battery Levels"@,
                items@[1] is Separator,
                items@[2] matches MenuEntry::Label(l) && l@ == battery_line("Left"@, self.left, self.left_charging),
                items@[3] matches MenuEntry::Label(l) && l@ == battery_line("Right"@, self.right, self.right_charging),
                items@[4] matches MenuEntry::Label(l) && l@ == battery_line("Case"@, self.case, self.case_charging),
                items@[5] is Separator,
                items@[6] matches MenuEntry::Label(l) && l@ == "Noise Control"@,
                forall|j: int| 0 <= j < i ==> is_mode_entry(#[trigger] items@[7 + j], NoiseMode::ALL@[j], *self),
            decreases 4 - i,
        {
            let mode = modes[i];
            let checked = match self.noise_mode {
                Some(m) => m == mode,
                None => false,
            };
            items.push(
                MenuEntry::Mode {
                    mode,
                    label: String::from_str(mode.label()),
                    checked,
                    enabled: self.on_aap,
                },
            );
            i = i + 1;
        }
        items.push(MenuEntry::Separator);
        items.push(MenuEntry::Command { label: String::from_str("Open LinuxPods"), command: TrayCommand::ShowWindow });
        items.push(MenuEntry::Command { label: String::from_str("Quit"), command: TrayCommand::Quit });
        items
    }
}

/// The tooltip shows the lower earbud: with both levels known it is "AirPods - "
/// and the smaller of the two in percent, a level no higher than either; with
/// one known, that one; with neither, the search message.
pub proof fn lemma_tooltip_shows_the_lower_earbud(left: Option<u8>, right: Option<u8>)
    ensures
        match (left, right) {
            (Some(l), Some(r)) => (l <= r ==> tooltip_text(left, right) == "AirPods - "@ + decimal(l as nat) + "%"@)
                && (r <= l ==> tooltip_text(left, right) == "AirPods - "@ + decimal(r as nat) + "%"@),
            (Some(l), None) => tooltip_text(left, right) == "AirPods - "@ + decimal(l as nat) + "%"@,
            (None, Some(r)) => tooltip_text(left, right) == "AirPods - "@ + decimal(r as nat) + "%"@,
            (None, None) => tooltip_text(left, right) == "Searching for AirPods..."@,
        },
{
}

/// A menu battery line as the tray prints it: the fixed-width name, then the
/// level in percent with a bolt while charging, or "--" when unknown.
pub open spec fn printed_line(head: Seq<char>, level: Option<u8>, charging: bool) -> Seq<char> {
    match level {
        Some(v) => if charging {
            head + decimal(v as nat) + "% ⚡"@
        } else {
            head + decimal(v as nat) + "%"@
        },
        None => head + "--"@,
    }
}

/// A tray showing `state` lists, under "Battery Levels", the left pod's level
/// and charging state on the "Left" line, the right pod's on the "Right" line and
/// the case's on the "Case" line, each a line of its own.
pub proof fn lemma_tray_lines_show_the_state<A: TrayActions + ?Sized>(
    entries: Seq<MenuEntry>,
    ind: Indicator<A>,
    state: PodState,
)
    requires
        shows(ind, state),
        menu_is(entries, ind),
    ensures
        entries[0] matches MenuEntry::Label(t) && t@ == "Battery Levels"@,
        entries[2] matches MenuEntry::Label(t) && t@ == printed_line(
            "  Left : "@,
            state.left_battery,
            state.left_charging,
        ),
        entries[3] matches MenuEntry::Label(t) && t@ == printed_line(
            "  Right: "@,
            state.right_battery,
            state.right_charging,
        ),
        entries[4] matches MenuEntry::Label(t) && t@ == printed_line(
            "  Case : "@,
            state.case_battery,
            state.case_charging,
        ),
{
    reveal_strlit("  ");
    reveal_strlit(": ");
    reveal_strlit("Left");
    reveal_strlit("Right");
    reveal_strlit("Case");
    reveal_strlit("Left ");
    reveal_strlit("Case ");
    reveal_strlit("  Left : ");
    reveal_strlit("  Right: ");
    reveal_strlit("  Case : ");
    reveal_strlit("%");
    reveal_strlit(" ⚡");
    reveal_strlit("% ⚡");
    assert(pad_right("Left"@, 5) =~= "Left "@);
    assert(pad_right("Right"@, 5) =~= "Right"@);
    assert(pad_right("Case"@, 5) =~= "Case "@);
    assert("  "@ + pad_right("Left"@, 5) + ": "@ =~= "  Left : "@);
    assert("  "@ + pad_right("Right"@, 5) + ": "@ =~= "  Right: "@);
    assert("  "@ + pad_right("Case"@, 5) + ": "@ =~= "  Case : "@);
    assert forall|h: Seq<char>, v: nat| #![auto] h + decimal(v) + "%"@ + " ⚡"@ =~= h + decimal(v) + "% ⚡"@ by {}
    assert forall|h: Seq<char>, v: nat| #![auto] h + decimal(v) + "%"@ + Seq::<char>::empty() =~= h + decimal(v) + "%"@ by {}
}

} // verus!
