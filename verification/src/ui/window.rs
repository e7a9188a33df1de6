//! Decisions the main window takes: which menu entry does what, what the
//! calibrate, floor and reset buttons need selected, when device motion
//! polling starts and stops, how often the connection is polled, and how a
//! confidence or battery level is shown.

use vstd::prelude::*;
use crate::ui::device_selector::Device;
use crate::xr::device_id_of;

verus! {

/// Sample counts offered in the calibrate menu, in row order.
pub const SAMPLE_COUNT_OPTIONS: [u32; 3] = [200, 400, 600];

/// Milliseconds between connection polls while connected.
pub const CONNECTED_POLL_MS: u64 = 5000;
/// Milliseconds between connection polls while disconnected.
pub const DISCONNECTED_POLL_MS: u64 = 500;

/// Colour of the confidence figure in the result notification.
pub fn confidence_color(confidence: u32) -> (c: &'static str)
    ensures
        c@ == (if confidence < 50 {
            "#a51d2d"@
        } else if confidence < 75 {
            "#e01b24"@
        } else if confidence < 80 {
            "#e66100"@
        } else if confidence < 90 {
            "#c88800"@
        } else {
            "#2ec27e"@
        }),
{
    if confidence < 50 {
        "#a51d2d"
    } else if confidence < 75 {
        "#e01b24"
    } else if confidence < 80 {
        "#e66100"
    } else if confidence < 90 {
        "#c88800"
    } else {
        "#2ec27e"
    }
}

/// Icon for a battery at `pct` percent.
pub open spec fn battery_icon_spec(pct: u32, charging: bool) -> Seq<char> {
    if charging {
        if pct > 75 {
            "battery-full-charging-symbolic"@
        } else if pct > 40 {
            "battery-good-charging-symbolic"@
        } else if pct > 15 {
            "battery-low-charging-symbolic"@
        } else {
            "battery-caution-charging-symbolic"@
        }
    } else if pct > 75 {
        "battery-full-symbolic"@
    } else if pct > 40 {
        "battery-good-symbolic"@
    } else if pct > 15 {
        "battery-low-symbolic"@
    } else {
        "battery-caution-symbolic"@
    }
}

/// The battery level an icon shows: full above 75%, good above 40%, low
/// above 15%, caution at 15% or less.
pub open spec fn battery_level_word(pct: u32) -> Seq<char> {
    if pct > 75 {
        "battery-full"@
    } else if pct > 40 {
        "battery-good"@
    } else if pct > 15 {
        "battery-low"@
    } else {
        "battery-caution"@
    }
}

/// Law: a battery's icon names its level, and the charging icon of a level
/// is its plain icon with `-charging` inserted: every charging battery shows
/// a charging icon, every other battery a plain one.
pub proof fn lemma_battery_icons(pct: u32)
    ensures
        battery_icon_spec(pct, true) == battery_level_word(pct) + "-charging-symbolic"@,
        battery_icon_spec(pct, false) == battery_level_word(pct) + "-symbolic"@,
{
    reveal_strlit("battery-full");
    reveal_strlit("battery-good");
    reveal_strlit("battery-low");
    reveal_strlit("battery-caution");
    reveal_strlit("-charging-symbolic");
    reveal_strlit("-symbolic");
    reveal_strlit("battery-full-charging-symbolic");
    reveal_strlit("battery-good-charging-symbolic");
    reveal_strlit("battery-low-charging-symbolic");
    reveal_strlit("battery-caution-charging-symbolic");
    reveal_strlit("battery-full-symbolic");
    reveal_strlit("battery-good-symbolic");
    reveal_strlit("battery-low-symbolic");
    reveal_strlit("battery-caution-symbolic");
    assert(battery_icon_spec(pct, true) =~= battery_level_word(pct) + "-charging-symbolic"@);
    assert(battery_icon_spec(pct, false) =~= battery_level_word(pct) + "-symbolic"@);
}

/// Icon name for a battery at `pct` percent.
pub fn battery_icon_name(pct: u32, charging: bool) -> (name: &'static str)
    ensures
        name@ == battery_icon_spec(pct, charging),
        name@ == battery_level_word(pct) + (if charging { "-charging-symbolic"@ } else { "-symbolic"@ }),
{
    proof { lemma_battery_icons(pct); }
    if charging {
        if pct > 75 {
            "battery-full-charging-symbolic"
        } else if pct > 40 {
            "battery-good-charging-symbolic"
        } else if pct > 15 {
            "battery-low-charging-symbolic"
        } else {
            "battery-caution-charging-symbolic"
        }
    } else if pct > 75 {
        "battery-full-symbolic"
    } else if pct > 40 {
        "battery-good-symbolic"
    } else if pct > 15 {
        "battery-low-symbolic"
    } else {
        "battery-caution-symbolic"
    }
}

/// Style class of a battery label: critical at 15% or less, low at 40% or less.
pub fn battery_style_class(pct: u32) -> (class: &'static str)
    ensures
        class@ == (if pct <= 15 {
            "error"@
        } else if pct <= 40 {
            "warning"@
        } else {
            "dim-label"@
        }),
{
    if pct <= 15 {
        "error"
    } else if pct <= 40 {
        "warning"
    } else {
        "dim-label"
    }
}

/// How long to wait before the next connection poll.
pub fn poll_interval_ms(connected: bool) -> (ms: u64)
    ensures
        ms == (if connected { CONNECTED_POLL_MS } else { DISCONNECTED_POLL_MS }),
{
    if connected {
        CONNECTED_POLL_MS
    } else {
        DISCONNECTED_POLL_MS
    }
}

/// What activating a row of the calibrate menu does.
#[derive(Clone, Copy, Debug, PartialEq, Eq, Structural)]
pub enum SampleMenuChoice {
    /// Use this many samples.
    Count(u32),
    /// Flip the continuous setting.
    ToggleContinuous,
    /// The row does nothing (the separator).
    Nothing,
}

/// Maps an activated row of the calibrate menu to its effect; the sample
/// rows come first, `continuous_row` is the index of the continuous toggle.
pub fn sample_menu_choice(index: i32, continuous_row: i32) -> (c: SampleMenuChoice)
    ensures
        c == (if 0 <= index < 3 {
            SampleMenuChoice::Count(SAMPLE_COUNT_OPTIONS[index as int])
        } else if index == continuous_row {
            SampleMenuChoice::ToggleContinuous
        } else {
            SampleMenuChoice::Nothing
        }),
{
    if 0 <= index && index < 3 {
        let counts = SAMPLE_COUNT_OPTIONS;
        SampleMenuChoice::Count(counts[index as usize])
    } else if index == continuous_row {
        SampleMenuChoice::ToggleContinuous
    } else {
        SampleMenuChoice::Nothing
    }
}

/// What activating a row of the reset menu does.
#[derive(Clone, Copy, Debug, PartialEq, Eq, Structural)]
pub enum ResetMenuAction {
    /// Reset the tracking origin of the category at this position.
    Origin(usize),
    /// Reset the floor level.
    Floor,
    /// Reset the horizontal centre and heading.
    Center,
    /// The row does nothing (the separator).
    Nothing,
}

/// Maps an activated row of the reset menu to its effect.  The menu lists
/// the categories, then a separator, the floor entry and the centre entry.
pub fn reset_menu_action(index: usize, num_categories: usize) -> (a: ResetMenuAction)
    ensures
        a == (if index < num_categories {
            ResetMenuAction::Origin(index)
        } else if index == num_categories + 1 {
            ResetMenuAction::Floor
        } else if index == num_categories + 2 {
            ResetMenuAction::Center
        } else {
            ResetMenuAction::Nothing
        }),
{
    if index < num_categories {
        ResetMenuAction::Origin(index)
    } else if index > num_categories && index - num_categories == 1 {
        ResetMenuAction::Floor
    } else if index > num_categories && index - num_categories == 2 {
        ResetMenuAction::Center
    } else {
        ResetMenuAction::Nothing
    }
}

/// A request to the XR loop about movement detection.
#[derive(Clone, Copy, Debug, PartialEq, Eq, Structural)]
pub enum MovementRequest {
    Start,
    Stop,
}

/// Counts the device pickers that are open; movement detection runs while
/// at least one is.
#[derive(Clone, Copy, Debug, PartialEq, Eq, Structural)]
pub struct PopoverTracker {
    pub open: u32,
}

impl PopoverTracker {
    /// No picker open.
    pub fn new() -> (t: Self)
        ensures
            t.open == 0,
    {
        PopoverTracker { open: 0 }
    }

    /// A picker opened or closed.  Detection starts when the first picker
    /// opens while connected, and stops when the last one closes.
    pub fn visibility_changed(&mut self, opened: bool, connected: bool) -> (req: Option<MovementRequest>)
        requires
            opened ==> old(self).open < u32::MAX,
        ensures
            opened ==> final(self).open == old(self).open + 1,
            opened ==> req == (if old(self).open == 0 && connected {
                Some(MovementRequest::Start)
            } else {
                None::<MovementRequest>
            }),
            !opened ==> final(self).open == (if old(self).open == 0 { 0 } else { old(self).open - 1 }),
            !opened ==> req == (if final(self).open == 0 {
                Some(MovementRequest::Stop)
            } else {
                None::<MovementRequest>
            }),
    {
        if opened {
            let req = if self.open == 0 && connected { Some(MovementRequest::Start) } else { None };
            self.open = self.open + 1;
            req
        } else {
            self.open = self.open.saturating_sub(1);
            if self.open == 0 {
                Some(MovementRequest::Stop)
            } else {
                None
            }
        }
    }
}

/// What a sampled calibration is started with: the devices by identifier
/// and the tracking origin of the target.
#[derive(Clone, Debug)]
pub struct SampledRequest {
    pub source_serial: String,
    pub target_serial: String,
    pub target_origin_index: u32,
}

/// The calibrate button: both devices must be selected.
pub fn sampled_request(source: Option<&Device>, target: Option<&Device>) -> (r: Result<SampledRequest, String>)
    ensures
        match (source, target) {
            (Some(s), Some(t)) => r matches Ok(q) && q.source_serial@ == device_id_of(s.serial@, s.name@)
                && q.target_serial@ == device_id_of(t.serial@, t.name@)
                && q.target_origin_index == t.category_index,
            _ => r matches Err(m) && m@ == "Select both source and target devices"@,
        },
{
    match (source, target) {
        (Some(s), Some(t)) => Ok(SampledRequest {
            source_serial: s.unique_id().to_owned(),
            target_serial: t.unique_id().to_owned(),
            target_origin_index: t.category_index,
        }),
        _ => Err("Select both source and target devices".to_owned()),
    }
}

/// The floor button: the target device, by identifier, must be selected.
pub fn floor_request(target: Option<&Device>) -> (r: Result<String, String>)
    ensures
        match target {
            Some(t) => r matches Ok(id) && id@ == device_id_of(t.serial@, t.name@),
            None => r matches Err(m) && m@ == "Select a target device first, then place it on the floor"@,
        },
{
    match target {
        Some(t) => Ok(t.unique_id().to_owned()),
        None => Err("Select a target device first, then place it on the floor".to_owned()),
    }
}

/// The reset button: the tracking origin of the selected target is reset.
pub fn reset_request(target: Option<&Device>) -> (r: Result<u32, String>)
    ensures
        match target {
            Some(t) => r == Ok::<u32, String>(t.category_index),
            None => r matches Err(m) && m@ == "Select a target device first"@,
        },
{
    match target {
        Some(t) => Ok(t.category_index),
        None => Err("Select a target device first".to_owned()),
    }
}

} // verus!
