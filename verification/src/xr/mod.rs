//! Decisions of the XR background loop: how to wait for the next command,
//! when to rebuild the OpenXR session, when to poll device motion, and what a
//! command asks for.  The loop itself (channels, sleeps, OpenXR calls) runs
//! outside the library and feeds each outcome back in.

pub mod hand_tracking;
pub mod mndx;

use vstd::prelude::*;
use crate::error::XrError;

verus! {

/// Milliseconds the loop waits for a command while movement detection runs.
pub const MOVEMENT_RECV_TIMEOUT_MS: u64 = 50;
/// Minimum milliseconds between two movement polls.
pub const MOVEMENT_POLL_INTERVAL_MS: u64 = 100;
/// Minimum milliseconds between two session rebuild attempts.
pub const RECONNECT_INTERVAL_MS: u64 = 2000;
/// Consecutive failed polls after which the session counts as stale.
pub const STALE_SESSION_FAILURES: u32 = 5;

/// The kinds of command the UI sends to the XR loop.
#[derive(Clone, Copy, Debug, PartialEq, Eq, Structural)]
pub enum CommandKind {
    StartSampled,
    StartContinuous,
    StopContinuous,
    CalibrateFloor,
    ResetFloor,
    ResetOffset,
    Recenter,
    StartMovementDetection,
    StopMovementDetection,
    Shutdown,
}

/// What one wait on the command channel produced.
#[derive(Clone, Copy, Debug, PartialEq, Eq, Structural)]
pub enum Received {
    Command(CommandKind),
    /// The wait timed out (only while movement detection runs).
    Timeout,
    /// Every sender is gone.
    Disconnected,
}

/// How the loop waits for the next command.
#[derive(Clone, Copy, Debug, PartialEq, Eq, Structural)]
pub enum RecvMode {
    Blocking,
    Timeout { millis: u64 },
}

/// What the loop does with a received command.
#[derive(Clone, Debug)]
pub enum LoopAction {
    /// Leave the loop.
    Exit,
    /// Nothing to do for this wake-up.
    Continue,
    /// Movement detection was switched on: forget all tracked devices and restart the poll timer.
    BeginMovementDetection,
    /// Movement detection was switched off: forget all tracked devices and send an empty movement update.
    EndMovementDetection,
    /// Run the command against the OpenXR session.
    Run(CommandKind),
    /// Answer with an error message.
    ReplyError(String),
    /// Answer that the floor reset is done.
    ReplyResetFloorComplete,
}

/// The loop's own state between two wake-ups.
#[derive(Clone, Copy, Debug, PartialEq, Eq, Structural)]
pub struct XrLoopState {
    pub movement_detection_active: bool,
    pub consecutive_failures: u32,
}

/// The message sent when a command needs OpenXR and there is no session.
pub open spec fn no_session_message(kind: CommandKind) -> Seq<char> {
    match kind {
        CommandKind::CalibrateFloor => "Connect to WiVRn to enable floor calibration"@,
        CommandKind::Recenter => "Connect to WiVRn to enable recenter"@,
        _ => "Connect to WiVRn to enable calibration"@,
    }
}

/// Commands that need a live OpenXR session.
pub open spec fn needs_session(kind: CommandKind) -> bool {
    ||| kind == CommandKind::StartSampled
    ||| kind == CommandKind::StartContinuous
    ||| kind == CommandKind::CalibrateFloor
    ||| kind == CommandKind::Recenter
}

/// The state after handling `r`.
pub open spec fn state_after(s: XrLoopState, r: Received) -> XrLoopState {
    match r {
        Received::Command(CommandKind::StartMovementDetection) => XrLoopState {
            movement_detection_active: true,
            ..s
        },
        Received::Command(CommandKind::StopMovementDetection) => XrLoopState {
            movement_detection_active: false,
            ..s
        },
        _ => s,
    }
}

/// The action for `r`; an error message is compared by its characters.
pub open spec fn action_matches(a: LoopAction, r: Received, session_present: bool) -> bool {
    match r {
        Received::Disconnected => a is Exit,
        Received::Timeout => a is Continue,
        Received::Command(kind) => match kind {
            CommandKind::Shutdown => a is Exit,
            CommandKind::StartMovementDetection => a is BeginMovementDetection,
            CommandKind::StopMovementDetection => a is EndMovementDetection,
            CommandKind::StopContinuous => a is Continue,
            CommandKind::ResetFloor => a is ReplyResetFloorComplete,
            CommandKind::ResetOffset => a matches LoopAction::ReplyError(m)
                && m@ == "Reset offset should be called from UI thread"@,
            CommandKind::StartContinuous => if session_present {
                a matches LoopAction::ReplyError(m) && m@ == "Continuous calibration not yet implemented"@
            } else {
                a matches LoopAction::ReplyError(m) && m@ == no_session_message(kind)
            },
            _ => if session_present {
                a == LoopAction::Run(kind)
            } else {
                a matches LoopAction::ReplyError(m) && m@ == no_session_message(kind)
            },
        },
    }
}

/// Law: only the start and stop commands switch movement detection (on
/// and off); every other wake-up, a timeout included, leaves it as it was,
/// and no wake-up changes the failure count.
pub proof fn lemma_only_detection_commands_switch(s: XrLoopState, r: Received)
    ensures
        state_after(s, r).consecutive_failures == s.consecutive_failures,
        r == Received::Command(CommandKind::StartMovementDetection) ==> state_after(s, r).movement_detection_active,
        r == Received::Command(CommandKind::StopMovementDetection) ==> !state_after(s, r).movement_detection_active,
        r != Received::Command(CommandKind::StartMovementDetection)
            && r != Received::Command(CommandKind::StopMovementDetection)
            ==> state_after(s, r).movement_detection_active == s.movement_detection_active,
{
}

fn text(s: &str) -> (r: String)
    ensures
        r@ == s@,
{
    s.to_owned()
}

impl XrLoopState {
    /// The state the loop starts in: no movement detection, no failures.
    pub fn new() -> (s: Self)
        ensures
            !s.movement_detection_active,
            s.consecutive_failures == 0,
    {
        XrLoopState { movement_detection_active: false, consecutive_failures: 0 }
    }

    /// Waits block unless movement detection runs, which needs short timeouts.
    pub fn receive_mode(&self) -> (m: RecvMode)
        ensures
            m == (if self.movement_detection_active {
                RecvMode::Timeout { millis: MOVEMENT_RECV_TIMEOUT_MS }
            } else {
                RecvMode::Blocking
            }),
    {
        if self.movement_detection_active {
            RecvMode::Timeout { millis: MOVEMENT_RECV_TIMEOUT_MS }
        } else {
            RecvMode::Blocking
        }
    }

    /// A rebuild of the session is due when there is none, or it failed too
    /// often in a row, and the last attempt lies far enough back.
    pub fn should_reconnect(&self, session_present: bool, millis_since_last_attempt: u64) -> (b: bool)
        ensures
            b == ((!session_present || self.consecutive_failures >= STALE_SESSION_FAILURES)
                && millis_since_last_attempt >= RECONNECT_INTERVAL_MS),
    {
        (!session_present || self.consecutive_failures >= STALE_SESSION_FAILURES)
            && millis_since_last_attempt >= RECONNECT_INTERVAL_MS
    }

    /// A rebuild attempt starts the failure count afresh.
    pub fn note_reconnect_attempt(&mut self)
        ensures
            final(self).consecutive_failures == 0,
            final(self).movement_detection_active == old(self).movement_detection_active,
    {
        self.consecutive_failures = 0;
    }

    /// Movement is polled while detection runs, at most once per interval.
    pub fn should_poll_movement(&self, millis_since_last_poll: u64) -> (b: bool)
        ensures
            b == (self.movement_detection_active && millis_since_last_poll >= MOVEMENT_POLL_INTERVAL_MS),
    {
        self.movement_detection_active && millis_since_last_poll >= MOVEMENT_POLL_INTERVAL_MS
    }

    /// Counts failed polls while a session exists; a successful poll resets the count.
    pub fn record_poll(&mut self, succeeded: bool, session_present: bool)
        requires
            !succeeded && session_present ==> old(self).consecutive_failures < u32::MAX,
        ensures
            final(self).movement_detection_active == old(self).movement_detection_active,
            final(self).consecutive_failures == (if succeeded {
                0
            } else if session_present {
                old(self).consecutive_failures + 1
            } else {
                old(self).consecutive_failures as int
            }),
    {
        if succeeded {
            self.consecutive_failures = 0;
        } else if session_present {
            self.consecutive_failures = self.consecutive_failures + 1;
        }
    }

    /// Decides what a wake-up of the loop leads to, and switches movement
    /// detection on or off.
    pub fn handle(&mut self, r: Received, session_present: bool) -> (a: LoopAction)
        ensures
            *final(self) == state_after(*old(self), r),
            action_matches(a, r, session_present),
            final(self).consecutive_failures == old(self).consecutive_failures,
            r == Received::Command(CommandKind::StartMovementDetection) ==> final(self).movement_detection_active,
            r == Received::Command(CommandKind::StopMovementDetection) ==> !final(self).movement_detection_active,
            r != Received::Command(CommandKind::StartMovementDetection)
                && r != Received::Command(CommandKind::StopMovementDetection)
                ==> final(self).movement_detection_active == old(self).movement_detection_active,
    {
        match r {
            Received::Disconnected => LoopAction::Exit,
            Received::Timeout => LoopAction::Continue,
            Received::Command(kind) => match kind {
                CommandKind::Shutdown => LoopAction::Exit,
                CommandKind::StartMovementDetection => {
                    self.movement_detection_active = true;
                    LoopAction::BeginMovementDetection
                },
                CommandKind::StopMovementDetection => {
                    self.movement_detection_active = false;
                    LoopAction::EndMovementDetection
                },
                CommandKind::StopContinuous => LoopAction::Continue,
                CommandKind::ResetFloor => LoopAction::ReplyResetFloorComplete,
                CommandKind::ResetOffset => LoopAction::ReplyError(
                    text("Reset offset should be called from UI thread"),
                ),
                CommandKind::StartContinuous => if session_present {
                    LoopAction::ReplyError(text("Continuous calibration not yet implemented"))
                } else {
                    LoopAction::ReplyError(text("Connect to WiVRn to enable calibration"))
                },
                CommandKind::CalibrateFloor => if session_present {
                    LoopAction::Run(kind)
                } else {
                    LoopAction::ReplyError(text("Connect to WiVRn to enable floor calibration"))
                },
                CommandKind::Recenter => if session_present {
                    LoopAction::Run(kind)
                } else {
                    LoopAction::ReplyError(text("Connect to WiVRn to enable recenter"))
                },
                CommandKind::StartSampled => if session_present {
                    LoopAction::Run(kind)
                } else {
                    LoopAction::ReplyError(text("Connect to WiVRn to enable calibration"))
                },
            },
        }
    }
}


/// OpenXR extensions, as offered by the runtime or as enabled.
#[derive(Clone, Copy, Debug, PartialEq, Eq, Structural)]
pub struct XrExtensions {
    pub mnd_headless: bool,
    pub mndx_xdev_space: bool,
    pub hand_tracking: bool,
    pub convert_timespec_time: bool,
}

/// The extensions to enable: the headless one is required, the others are
/// enabled whenever the runtime offers them.
pub fn choose_extensions(available: XrExtensions) -> (r: Result<XrExtensions, XrError>)
    ensures
        available.mnd_headless ==> r == Ok::<XrExtensions, XrError>(available),
        !available.mnd_headless ==> (r matches Err(XrError::ExtensionNotAvailable(m)) && m@ == "MND_headless"@),
{
    if available.mnd_headless {
        Ok(available)
    } else {
        Err(XrError::ExtensionNotAvailable("MND_headless".to_owned()))
    }
}

/// A device's identifier: its serial number, or its name when the serial is empty.
pub open spec fn device_id_of(serial: Seq<char>, name: Seq<char>) -> Seq<char> {
    if serial.len() == 0 { name } else { serial }
}

/// The identifier under which the loop tracks a device's movement.
pub fn movement_device_id(serial: &str, name: &str) -> (id: String)
    ensures
        id@ == device_id_of(serial@, name@),
{
    if serial.is_empty() {
        name.to_owned()
    } else {
        serial.to_owned()
    }
}

/// Name and serial of a device as the runtime lists it, and whether a pose
/// space can be made for it.
#[derive(Clone, Debug)]
pub struct DeviceIdentity {
    pub name: String,
    pub serial: String,
    pub can_create_space: bool,
}

/// The device matches `key` by serial or, for older selections, by name.
pub open spec fn identity_matches(d: DeviceIdentity, key: Seq<char>) -> bool {
    d.serial@ == key || d.name@ == key
}

/// Finds the first listed device whose serial or name equals `key`.
pub fn find_device(devices: &Vec<DeviceIdentity>, key: &str) -> (r: Option<usize>)
    ensures
        match r {
            Some(i) => i < devices.len() && identity_matches(devices@[i as int], key@)
                && forall|j: int| 0 <= j < i ==> !identity_matches(#[trigger] devices@[j], key@),
            None => forall|j: int| 0 <= j < devices.len() ==> !identity_matches(#[trigger] devices@[j], key@),
        },
{
    let k = key.to_owned();
    let mut i: usize = 0;
    while i < devices.len()
        invariant
            i <= devices.len(),
            k@ == key@,
            forall|j: int| 0 <= j < i ==> !identity_matches(#[trigger] devices@[j], key@),
        decreases devices.len() - i,
    {
        if devices[i].serial == k || devices[i].name == k {
            return Some(i);
        }
        i = i + 1;
    }
    None
}

/// Device `i` is the first listed one matching `key`.
pub open spec fn is_first_match(devs: Seq<DeviceIdentity>, key: Seq<char>, i: int) -> bool {
    &&& 0 <= i < devs.len()
    &&& identity_matches(devs[i], key)
    &&& forall|j: int| 0 <= j < i ==> !identity_matches(#[trigger] devs[j], key)
}

/// The position of the first listed device matching `key`, if any.
pub open spec fn first_match(devs: Seq<DeviceIdentity>, key: Seq<char>) -> Option<int> {
    if exists|i: int| is_first_match(devs, key, i) {
        Some(choose|i: int| is_first_match(devs, key, i))
    } else {
        None
    }
}

proof fn lemma_first_match(devs: Seq<DeviceIdentity>, key: Seq<char>, i: int)
    requires
        is_first_match(devs, key, i),
    ensures
        first_match(devs, key) == Some(i),
{
    let k = choose|k: int| is_first_match(devs, key, k);
    if k < i {
        assert(!identity_matches(devs[k], key));
    } else if i < k {
        assert(!identity_matches(devs[i], key));
    }
}

proof fn lemma_no_match(devs: Seq<DeviceIdentity>, key: Seq<char>)
    requires
        forall|j: int| 0 <= j < devs.len() ==> !identity_matches(#[trigger] devs[j], key),
    ensures
        first_match(devs, key) is None,
{
}

/// The text reporting that no listed device matches `key`.
pub open spec fn not_found_text(role: Seq<char>, key: Seq<char>) -> Seq<char> {
    role + " device '"@ + key + "' not found"@
}

/// The text reporting that device `name` cannot be used.
pub open spec fn unusable_text(role: Seq<char>, name: Seq<char>, why: Seq<char>) -> Seq<char> {
    role + " device '"@ + name + "' "@ + why
}

/// The device pair a sampled calibration uses: the first match of each key;
/// a missing source is reported first, then a missing target, then a
/// source and then a target for which no pose space can be made.
pub open spec fn sampled_pick(devs: Seq<DeviceIdentity>, source: Seq<char>, target: Seq<char>) -> Result<(int, int), Seq<char>> {
    match (first_match(devs, source), first_match(devs, target)) {
        (None, _) => Err(not_found_text("Source"@, source)),
        (Some(_), None) => Err(not_found_text("Target"@, target)),
        (Some(s), Some(t)) => if !devs[s].can_create_space {
            Err(unusable_text("Source"@, devs[s].name@, "does not support space creation"@))
        } else if !devs[t].can_create_space {
            Err(unusable_text("Target"@, devs[t].name@, "does not support space creation"@))
        } else {
            Ok((s, t))
        },
    }
}

/// The device a floor calibration uses: the first match of `target`, which
/// must allow a pose space.
pub open spec fn floor_pick(devs: Seq<DeviceIdentity>, target: Seq<char>) -> Result<int, Seq<char>> {
    match first_match(devs, target) {
        None => Err(not_found_text("Target"@, target)),
        Some(t) => if !devs[t].can_create_space {
            Err(unusable_text("Target"@, devs[t].name@, "does not support pose tracking"@))
        } else {
            Ok(t)
        },
    }
}

fn not_found(role: &str, key: &str) -> (m: String)
    ensures
        m@ == not_found_text(role@, key@),
{
    let mut m = role.to_owned();
    m.append(" device '");
    m.append(key);
    m.append("' not found");
    m
}

fn unusable(role: &str, name: &str, why: &str) -> (m: String)
    ensures
        m@ == unusable_text(role@, name@, why@),
{
    let mut m = role.to_owned();
    m.append(" device '");
    m.append(name);
    m.append("' ");
    m.append(why);
    m
}

/// Position of the first device matching `key`, as `first_match` says.
fn locate(devices: &Vec<DeviceIdentity>, key: &str) -> (r: Option<usize>)
    ensures
        match r {
            Some(i) => first_match(devices@, key@) == Some(i as int) && i < devices.len(),
            None => first_match(devices@, key@) is None,
        },
{
    let r = find_device(devices, key);
    proof {
        match r {
            Some(i) => lemma_first_match(devices@, key@, i as int),
            None => lemma_no_match(devices@, key@),
        }
    }
    r
}

/// Chooses the source and target devices of a sampled calibration among
/// the listed ones, or says why it cannot run.
pub fn pick_sampled_devices(devices: &Vec<DeviceIdentity>, source: &str, target: &str) -> (r: Result<(usize, usize), String>)
    ensures
        match r {
            Ok((s, t)) => sampled_pick(devices@, source@, target@) == Ok::<(int, int), Seq<char>>((s as int, t as int))
                && s < devices.len() && t < devices.len(),
            Err(m) => sampled_pick(devices@, source@, target@) == Err::<(int, int), Seq<char>>(m@),
        },
{
    let s = match locate(devices, source) {
        Some(s) => s,
        None => return Err(not_found("Source", source)),
    };
    let t = match locate(devices, target) {
        Some(t) => t,
        None => return Err(not_found("Target", target)),
    };
    if !devices[s].can_create_space {
        return Err(unusable("Source", devices[s].name.as_str(), "does not support space creation"));
    }
    if !devices[t].can_create_space {
        return Err(unusable("Target", devices[t].name.as_str(), "does not support space creation"));
    }
    Ok((s, t))
}

/// Chooses the device of a floor calibration among the listed ones, or
/// says why it cannot run.
pub fn pick_floor_device(devices: &Vec<DeviceIdentity>, target: &str) -> (r: Result<usize, String>)
    ensures
        match r {
            Ok(t) => floor_pick(devices@, target@) == Ok::<int, Seq<char>>(t as int) && t < devices.len(),
            Err(m) => floor_pick(devices@, target@) == Err::<int, Seq<char>>(m@),
        },
{
    let t = match locate(devices, target) {
        Some(t) => t,
        None => return Err(not_found("Target", target)),
    };
    if !devices[t].can_create_space {
        return Err(unusable("Target", devices[t].name.as_str(), "does not support pose tracking"));
    }
    Ok(t)
}

/// When a tracked device was last seen moving.
#[derive(Clone, Debug)]
pub struct DeviceMovementState<T> {
    pub device_id: String,
    pub last_moving_time: Option<T>,
}

/// The devices seen during movement detection, each once, in the order they
/// were first seen.
pub struct MovementTracker<T> {
    states: Vec<DeviceMovementState<T>>,
}

/// No identifier occurs twice.
pub open spec fn ids_unique<T>(s: Seq<(Seq<char>, Option<T>)>) -> bool {
    forall|i: int, j: int| 0 <= i < s.len() && 0 <= j < s.len() && i != j ==> s[i].0 != s[j].0
}

/// Some entry carries identifier `id`.
pub open spec fn has_id<T>(s: Seq<(Seq<char>, Option<T>)>, id: Seq<char>) -> bool {
    exists|i: int| 0 <= i < s.len() && #[trigger] s[i].0 == id
}

/// The entries after observing device `id` at time `now`: a known device has
/// its time renewed when it moves; an unknown one is appended, with `now`
/// only when it moves.
pub open spec fn observed<T>(s: Seq<(Seq<char>, Option<T>)>, id: Seq<char>, is_moving: bool, now: T) -> Seq<(Seq<char>, Option<T>)> {
    if has_id(s, id) {
        Seq::new(s.len(), |i: int| if s[i].0 == id && is_moving { (id, Some(now)) } else { s[i] })
    } else {
        s.push((id, if is_moving { Some(now) } else { None }))
    }
}

/// Law: observing device `id` keeps every listed device in its place and
/// leaves the others untouched; afterwards `id` is listed, and its entry
/// holds `now` when it was seen moving, and otherwise the time it held
/// before (none for a device seen for the first time).
pub proof fn lemma_observed<T>(s: Seq<(Seq<char>, Option<T>)>, id: Seq<char>, is_moving: bool, now: T)
    requires
        ids_unique(s),
    ensures
        observed(s, id, is_moving, now).len() == s.len() + (if has_id(s, id) { 0int } else { 1int }),
        forall|i: int| 0 <= i < s.len() ==> (#[trigger] observed(s, id, is_moving, now)[i]).0 == s[i].0,
        forall|i: int| 0 <= i < s.len() && s[i].0 != id ==> #[trigger] observed(s, id, is_moving, now)[i] == s[i],
        has_id(observed(s, id, is_moving, now), id),
        forall|i: int| 0 <= i < observed(s, id, is_moving, now).len() && (#[trigger] observed(s, id, is_moving, now)[i]).0 == id
            ==> observed(s, id, is_moving, now)[i].1 == (if is_moving {
                Some(now)
            } else if i < s.len() {
                s[i].1
            } else {
                None
            }),
{
    let o = observed(s, id, is_moving, now);
    if has_id(s, id) {
        let k = choose|k: int| 0 <= k < s.len() && #[trigger] s[k].0 == id;
        assert(o[k].0 == id);
    } else {
        assert(o[s.len() as int].0 == id);
    }
}

impl<T> View for MovementTracker<T> {
    type V = Seq<(Seq<char>, Option<T>)>;

    closed spec fn view(&self) -> Seq<(Seq<char>, Option<T>)> {
        self.states@.map_values(|st: DeviceMovementState<T>| (st.device_id@, st.last_moving_time))
    }
}

impl<T> MovementTracker<T> {
    #[verifier::type_invariant]
    closed spec fn inv(self) -> bool {
        ids_unique(self@)
    }

    /// No device tracked yet.
    pub fn new() -> (t: Self)
        ensures
            t@ == Seq::<(Seq<char>, Option<T>)>::empty(),
            ids_unique(t@),
    {
        let t = MovementTracker { states: Vec::new() };
        assert(t@ =~= Seq::<(Seq<char>, Option<T>)>::empty());
        t
    }

    /// The tracked devices.
    pub fn states(&self) -> (r: &Vec<DeviceMovementState<T>>)
        ensures
            r@.map_values(|st: DeviceMovementState<T>| (st.device_id@, st.last_moving_time)) == self@,
            ids_unique(self@),
    {
        proof { use_type_invariant(self); }
        &self.states
    }

    /// Forgets every device.
    pub fn clear(&mut self)
        ensures
            final(self)@ == Seq::<(Seq<char>, Option<T>)>::empty(),
            ids_unique(final(self)@),
    {
        self.states = Vec::new();
        assert(self@ =~= Seq::<(Seq<char>, Option<T>)>::empty());
    }

    /// Records one observation of device `device_id`.
    pub fn observe(&mut self, device_id: String, is_moving: bool, now: T)
        ensures
            final(self)@ == observed(old(self)@, device_id@, is_moving, now),
            ids_unique(final(self)@),
            forall|i: int| 0 <= i < old(self)@.len() && old(self)@[i].0 != device_id@
                ==> #[trigger] final(self)@[i] == old(self)@[i],
            is_moving ==> exists|i: int| 0 <= i < final(self)@.len() && #[trigger] final(self)@[i] == (device_id@, Some(now)),
            forall|i: int| 0 <= i < final(self)@.len() && (#[trigger] final(self)@[i]).0 == device_id@
                ==> final(self)@[i].1 == (if is_moving {
                    Some(now)
                } else if i < old(self)@.len() {
                    old(self)@[i].1
                } else {
                    None
                }),
    {
        proof { use_type_invariant(&*self); }
        let ghost old_view = old(self)@;
        let mut states: Vec<DeviceMovementState<T>> = Vec::new();
        std::mem::swap(&mut states, &mut self.states);
        let ghost v0 = states@;
        let mut found: Option<usize> = None;
        let mut i: usize = 0;
        while i < states.len()
            invariant_except_break
                found is None,
            invariant
                i <= states.len(),
                states@ == v0,
                old_view == v0.map_values(|st: DeviceMovementState<T>| (st.device_id@, st.last_moving_time)),
                forall|j: int| 0 <= j < i ==> (#[trigger] old_view[j]).0 != device_id@,
            ensures
                match found {
                    Some(k) => k < states.len() && old_view[k as int].0 == device_id@,
                    None => forall|j: int| 0 <= j < states.len() ==> (#[trigger] old_view[j]).0 != device_id@,
                },
            decreases states.len() - i,
        {
            if states[i].device_id == device_id {
                found = Some(i);
                break;
            }
            i = i + 1;
        }
        let ghost id = device_id@;
        match found {
            Some(k) => {
                if is_moving {
                    let entry = DeviceMovementState { device_id, last_moving_time: Some(now) };
                    states.set(k, entry);
                }
                proof {
                    assert(has_id(old_view, id));
                    assert forall|j: int| 0 <= j < old_view.len() && j != k implies
                        #[trigger] old_view[j].0 != id by {
                        assert(old_view[j].0 != old_view[k as int].0);
                    }
                }
            },
            None => {
                let entry = DeviceMovementState {
                    device_id,
                    last_moving_time: if is_moving { Some(now) } else { None },
                };
                states.push(entry);
                proof {
                    assert(!has_id(old_view, id));
                }
            },
        }
        let ghost new_view = states@.map_values(|st: DeviceMovementState<T>| (st.device_id@, st.last_moving_time));
        proof {
            lemma_observed(old_view, id, is_moving, now);
            assert(new_view =~= observed(old_view, id, is_moving, now));
            assert forall|a: int, b: int| 0 <= a < new_view.len() && 0 <= b < new_view.len() && a != b
                implies new_view[a].0 != new_view[b].0 by {
                if a < old_view.len() && b < old_view.len() {
                    assert(new_view[a].0 == old_view[a].0);
                    assert(new_view[b].0 == old_view[b].0);
                }
            }
        }
        self.states = states;
    }
}

} // verus!
