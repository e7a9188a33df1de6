use spacecal_for_monado::error::XrError;
use spacecal_for_monado::xr::mndx::text_until_nul;
use spacecal_for_monado::xr::{
    choose_extensions, find_device, movement_device_id, pick_floor_device, pick_sampled_devices, XrExtensions, CommandKind, DeviceIdentity, LoopAction, MovementTracker, Received, RecvMode,
    XrLoopState, MOVEMENT_RECV_TIMEOUT_MS,
};

fn error_text(a: LoopAction) -> String {
    match a {
        LoopAction::ReplyError(m) => m,
        other => panic!("expected an error reply, got {:?}", other),
    }
}

#[test]
fn loop_without_session_answers_with_errors() {
    let mut s = XrLoopState::new();
    assert_eq!(error_text(s.handle(Received::Command(CommandKind::StartSampled), false)), "Connect to WiVRn to enable calibration");
    assert_eq!(error_text(s.handle(Received::Command(CommandKind::CalibrateFloor), false)), "Connect to WiVRn to enable floor calibration");
    assert_eq!(error_text(s.handle(Received::Command(CommandKind::Recenter), false)), "Connect to WiVRn to enable recenter");
    assert_eq!(error_text(s.handle(Received::Command(CommandKind::StartContinuous), true)), "Continuous calibration not yet implemented");
    assert_eq!(error_text(s.handle(Received::Command(CommandKind::ResetOffset), true)), "Reset offset should be called from UI thread");
    assert!(matches!(s.handle(Received::Command(CommandKind::ResetFloor), false), LoopAction::ReplyResetFloorComplete));
    assert!(matches!(s.handle(Received::Command(CommandKind::StopContinuous), false), LoopAction::Continue));
}

#[test]
fn loop_runs_commands_with_a_session() {
    let mut s = XrLoopState::new();
    assert!(matches!(s.handle(Received::Command(CommandKind::StartSampled), true), LoopAction::Run(CommandKind::StartSampled)));
    assert!(matches!(s.handle(Received::Command(CommandKind::Recenter), true), LoopAction::Run(CommandKind::Recenter)));
    assert!(matches!(s.handle(Received::Command(CommandKind::Shutdown), true), LoopAction::Exit));
    assert!(matches!(s.handle(Received::Disconnected, true), LoopAction::Exit));
}

#[test]
fn movement_detection_switches_receive_mode() {
    let mut s = XrLoopState::new();
    assert_eq!(s.receive_mode(), RecvMode::Blocking);
    assert!(!s.should_poll_movement(1000));
    assert!(matches!(s.handle(Received::Command(CommandKind::StartMovementDetection), true), LoopAction::BeginMovementDetection));
    assert_eq!(s.receive_mode(), RecvMode::Timeout { millis: MOVEMENT_RECV_TIMEOUT_MS });
    assert!(s.should_poll_movement(100));
    assert!(!s.should_poll_movement(99));
    assert!(matches!(s.handle(Received::Timeout, true), LoopAction::Continue));
    assert!(matches!(s.handle(Received::Command(CommandKind::StopMovementDetection), true), LoopAction::EndMovementDetection));
    assert_eq!(s.receive_mode(), RecvMode::Blocking);
}

#[test]
fn stale_session_is_rebuilt() {
    let mut s = XrLoopState::new();
    assert!(s.should_reconnect(false, 2000));
    assert!(!s.should_reconnect(false, 1999));
    assert!(!s.should_reconnect(true, 5000));
    for _ in 0..5 {
        s.record_poll(false, true);
    }
    assert_eq!(s.consecutive_failures, 5);
    assert!(s.should_reconnect(true, 2000));
    s.record_poll(false, false);
    assert_eq!(s.consecutive_failures, 5);
    s.note_reconnect_attempt();
    assert_eq!(s.consecutive_failures, 0);
    s.record_poll(false, true);
    s.record_poll(true, true);
    assert_eq!(s.consecutive_failures, 0);
}

#[test]
fn movement_ids_and_lookup() {
    assert_eq!(movement_device_id("LHR-1", "Tracker"), "LHR-1");
    assert_eq!(movement_device_id("", "Tracker"), "Tracker");
    let devices = vec![
        DeviceIdentity { name: "WiVRn HMD".to_string(), serial: "".to_string(), can_create_space: true },
        DeviceIdentity { name: "Tracker".to_string(), serial: "LHR-1".to_string(), can_create_space: true },
        DeviceIdentity { name: "Tracker".to_string(), serial: "LHR-2".to_string(), can_create_space: true },
    ];
    assert_eq!(find_device(&devices, "LHR-2"), Some(2));
    assert_eq!(find_device(&devices, "Tracker"), Some(1));
    assert_eq!(find_device(&devices, "WiVRn HMD"), Some(0));
    assert_eq!(find_device(&devices, "missing"), None);
}

#[test]
fn tracker_records_each_device_once() {
    let mut t: MovementTracker<u64> = MovementTracker::new();
    t.observe("a".to_string(), false, 10);
    t.observe("b".to_string(), true, 11);
    t.observe("a".to_string(), true, 12);
    t.observe("b".to_string(), false, 13);
    let seen: Vec<(String, Option<u64>)> = t.states().iter().map(|s| (s.device_id.clone(), s.last_moving_time)).collect();
    assert_eq!(seen, vec![("a".to_string(), Some(12)), ("b".to_string(), Some(11))]);
    t.clear();
    assert!(t.states().is_empty());
}

#[test]
fn nul_terminated_text() {
    assert_eq!(text_until_nul(b"WiVRn HMD\0\0\0"), Some("WiVRn HMD".to_string()));
    assert_eq!(text_until_nul(b"\0abc"), Some(String::new()));
    assert_eq!(text_until_nul(b"ab\xffc\0zz"), Some("ab\u{FFFD}c".to_string()));
    assert_eq!(text_until_nul(b"no end"), None);
}

fn ident(name: &str, serial: &str, space: bool) -> DeviceIdentity {
    DeviceIdentity { name: name.to_string(), serial: serial.to_string(), can_create_space: space }
}

#[test]
fn sampled_devices_are_picked_or_refused() {
    let devices = vec![ident("WiVRn HMD", "", true), ident("Tracker", "LHR-1", true), ident("Controller", "LHR-2", false)];
    assert_eq!(pick_sampled_devices(&devices, "WiVRn HMD", "LHR-1"), Ok((0, 1)));
    assert_eq!(pick_sampled_devices(&devices, "Tracker", "WiVRn HMD"), Ok((1, 0)));
    assert_eq!(pick_sampled_devices(&devices, "gone", "LHR-1"), Err("Source device 'gone' not found".to_string()));
    assert_eq!(pick_sampled_devices(&devices, "gone", "also gone"), Err("Source device 'gone' not found".to_string()));
    assert_eq!(pick_sampled_devices(&devices, "LHR-1", "missing"), Err("Target device 'missing' not found".to_string()));
    assert_eq!(
        pick_sampled_devices(&devices, "LHR-2", "LHR-1"),
        Err("Source device 'Controller' does not support space creation".to_string())
    );
    assert_eq!(
        pick_sampled_devices(&devices, "LHR-1", "Controller"),
        Err("Target device 'Controller' does not support space creation".to_string())
    );
}

#[test]
fn floor_device_is_picked_or_refused() {
    let devices = vec![ident("Tracker", "LHR-1", false), ident("Tracker", "LHR-2", true)];
    assert_eq!(pick_floor_device(&devices, "LHR-2"), Ok(1));
    assert_eq!(pick_floor_device(&devices, "Tracker"), Err("Target device 'Tracker' does not support pose tracking".to_string()));
    assert_eq!(pick_floor_device(&devices, "x"), Err("Target device 'x' not found".to_string()));
}

#[test]
fn headless_extension_is_required() {
    let offered = XrExtensions { mnd_headless: true, mndx_xdev_space: true, hand_tracking: false, convert_timespec_time: true };
    assert_eq!(choose_extensions(offered).unwrap(), offered);
    let missing = XrExtensions { mnd_headless: false, ..offered };
    assert!(matches!(choose_extensions(missing), Err(XrError::ExtensionNotAvailable(ref m)) if m == "MND_headless"));
}
