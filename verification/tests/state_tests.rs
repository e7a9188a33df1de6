use spacecal_for_monado::calibration::DeviceMovement;
use spacecal_for_monado::config::Config;
use spacecal_for_monado::error::MonadoError;
use spacecal_for_monado::monado::BatteryStatus;
use spacecal_for_monado::ui::device_selector::FloatBits;
use spacecal_for_monado::ui::state::{shorten_device_name, shorten_lowered, AppState};
use spacecal_for_monado::ui::{Category, Device};

fn bits(x: f32) -> FloatBits {
    FloatBits(x.to_bits())
}

fn dev(name: &str, serial: &str, cat: &str, cat_index: u32, index: u32, charge: Option<f32>) -> Device {
    Device {
        name: name.to_string(),
        serial: serial.to_string(),
        description: String::new(),
        category: cat.to_string(),
        category_index: cat_index,
        device_index: index,
        battery_charge: charge.map(bits),
        battery_charging: false,
    }
}

fn setup() -> Vec<Category> {
    vec![
        Category {
            index: 0,
            name: "WiVRn".to_string(),
            devices: vec![dev("WiVRn HMD", "", "WiVRn", 0, 0, Some(0.9))],
        },
        Category {
            index: 1,
            name: "Lighthouse".to_string(),
            devices: vec![
                dev("Vive Tracker Pro", "LHR-EEBBC131", "Lighthouse", 1, 1, Some(0.5)),
                dev("Valve Index Controller Left", "LHR-AAAA0001", "Lighthouse", 1, 2, None),
            ],
        },
    ]
}

fn config(source: &str, target: &str) -> Config {
    Config {
        source: source.to_string(),
        target: target.to_string(),
        hide_calibration_help: true,
        sample_count: 600,
        continuous_enabled: false,
    }
}

#[test]
fn shorten_known_kinds() {
    assert_eq!(shorten_device_name("Valve Index Controller (Left)"), "Knuckles L");
    assert_eq!(shorten_device_name("Knuckles Right"), "Knuckles R");
    assert_eq!(shorten_device_name("Index"), "Knuckles");
    assert_eq!(shorten_device_name("Oculus Touch Controller right"), "Controller R");
    assert_eq!(shorten_device_name("Generic Controller"), "Controller");
    assert_eq!(shorten_device_name("Vive Tracker Pro"), "Tracker");
    assert_eq!(shorten_device_name("WiVRn HMD"), "HMD");
    assert_eq!(shorten_device_name("Meta Quest Headset"), "HMD");
    assert_eq!(shorten_device_name("Xbox Gamepad"), "Gamepad");
}

#[test]
fn shorten_lowercases_before_matching() {
    assert_eq!(shorten_device_name("LEFT CONTROLLER"), "Controller L");
    assert_eq!(shorten_device_name("VIVE TRACKER"), "Tracker");
}

#[test]
fn shorten_falls_back_to_two_words() {
    assert_eq!(shorten_device_name("Pico Neo 3 Pro"), "Pico Neo");
    assert_eq!(shorten_device_name("  Pico \t Neo   3  "), "Pico Neo");
    assert_eq!(shorten_device_name("Simulated Thing"), "Simulated Thing");
    assert_eq!(shorten_device_name(" Lone "), " Lone ");
}

#[test]
fn new_without_connection_has_no_devices() {
    let s: AppState<u32> = AppState::new(config("LHR-EEBBC131", ""), None, setup());
    assert!(!s.is_connected());
    assert!(s.categories().is_empty());
    assert_eq!(s.source_name(), Some("LHR-EEBBC131"));
    assert_eq!(s.target_name(), None);
    assert!(s.selected_source().is_none());
    assert!(s.battery_status_list().is_empty());
    assert!(s.hide_calibration_help());
    assert_eq!(s.sample_count(), 600);
    assert!(!s.continuous_enabled());
}

#[test]
fn selection_excludes_the_other_category() {
    let s: AppState<u32> = AppState::new(config("LHR-EEBBC131", "WiVRn HMD"), Some(3), setup());
    assert!(s.is_connected());
    assert_eq!(s.connection(), Some(&3));
    assert_eq!(s.all_devices().len(), 3);
    assert_eq!(s.selected_source().unwrap().name, "Vive Tracker Pro");
    assert_eq!(s.selected_target().unwrap().name, "WiVRn HMD");
    let sources: Vec<String> = s.source_devices().into_iter().map(|d| d.name).collect();
    assert_eq!(sources, vec!["Vive Tracker Pro", "Valve Index Controller Left"]);
    let targets: Vec<String> = s.target_devices().into_iter().map(|d| d.name).collect();
    assert_eq!(targets, vec!["WiVRn HMD"]);
}

#[test]
fn setters_report_changes_and_config_round_trips() {
    let mut s: AppState<u32> = AppState::new(config("", ""), Some(1), setup());
    assert!(s.set_source(Some("LHR-AAAA0001".to_string())));
    assert!(!s.set_source(Some("LHR-AAAA0001".to_string())));
    assert!(s.set_target(Some("WiVRn HMD".to_string())));
    assert!(s.set_target(None));
    assert!(!s.set_target(None));
    assert!(s.set_sample_count(200));
    assert!(!s.set_sample_count(200));
    assert!(s.set_continuous_enabled(true));
    assert!(s.set_hide_calibration_help(false));
    let c = s.config();
    assert_eq!(c.source, "LHR-AAAA0001");
    assert_eq!(c.target, "");
    assert_eq!(c.sample_count, 200);
    assert!(c.continuous_enabled);
    assert!(!c.hide_calibration_help);
    let again: AppState<u32> = AppState::new(c, Some(1), setup());
    assert_eq!(again.source_name(), Some("LHR-AAAA0001"));
    assert_eq!(again.target_name(), None);
}

#[test]
fn battery_list_is_sorted_and_survives_disconnect() {
    let mut s: AppState<u32> = AppState::new(config("", ""), Some(1), setup());
    let list: Vec<(String, String, Option<FloatBits>, bool)> = s
        .battery_status_list()
        .into_iter()
        .map(|b| (b.short_name.clone(), b.serial_suffix.clone(), b.charge, b.online))
        .collect();
    assert_eq!(
        list,
        vec![
            ("HMD".to_string(), "".to_string(), Some(bits(0.9)), true),
            ("Tracker".to_string(), "EEBBC131".to_string(), Some(bits(0.5)), true),
        ]
    );
    s.refresh_batteries(Err(MonadoError::EnumerationFailed("gone".to_string())));
    assert!(!s.is_connected());
    assert!(s.all_devices().is_empty());
    let list: Vec<(String, Option<FloatBits>, bool)> =
        s.battery_status_list().into_iter().map(|b| (b.short_name.clone(), b.charge, b.online)).collect();
    assert_eq!(list, vec![("HMD".to_string(), None, false), ("Tracker".to_string(), None, false)]);
}

#[test]
fn battery_refresh_updates_charges() {
    let mut s: AppState<u32> = AppState::new(config("", ""), Some(1), setup());
    let readings = vec![
        (0, Some(BatteryStatus { present: true, charge: bits(0.4), charging: true })),
        (2, Some(BatteryStatus { present: true, charge: bits(0.1), charging: false })),
    ];
    s.refresh_batteries(Ok(readings));
    assert!(s.is_connected());
    let list: Vec<(String, Option<FloatBits>, bool, bool)> = s
        .battery_status_list()
        .into_iter()
        .map(|b| (b.short_name.clone(), b.charge, b.charging, b.online))
        .collect();
    assert_eq!(
        list,
        vec![
            ("HMD".to_string(), Some(bits(0.4)), true, true),
            ("Knuckles L".to_string(), Some(bits(0.1)), false, true),
            ("Tracker".to_string(), None, false, false),
        ]
    );
}

#[test]
fn reconnect_only_while_disconnected() {
    let mut s: AppState<u32> = AppState::new(config("", ""), None, Vec::new());
    assert!(!s.refresh_connection(None, setup()));
    assert!(s.categories().is_empty());
    assert!(s.refresh_connection(Some(9), setup()));
    assert_eq!(s.connection(), Some(&9));
    assert_eq!(s.categories().len(), 2);
    assert!(!s.refresh_connection(Some(10), Vec::new()));
    assert_eq!(s.connection(), Some(&9));
    assert_eq!(s.categories().len(), 2);
    s.force_refresh(None, setup());
    assert!(!s.is_connected());
    assert!(s.categories().is_empty());
}

#[test]
fn movement_intensities_keep_the_last_entry() {
    let mut s: AppState<u32> = AppState::new(config("", ""), Some(1), setup());
    s.set_movement_intensities(vec![
        DeviceMovement { device_id: "a".to_string(), intensity: bits(0.2) },
        DeviceMovement { device_id: "b".to_string(), intensity: bits(1.0) },
        DeviceMovement { device_id: "a".to_string(), intensity: bits(0.7) },
    ]);
    assert_eq!(
        s.movement_intensities(),
        &vec![("a".to_string(), bits(0.7)), ("b".to_string(), bits(1.0))]
    );
    s.set_movement_intensities(Vec::new());
    assert!(s.movement_intensities().is_empty());
}

#[test]
fn shorten_with_a_given_lowercase() {
    assert_eq!(shorten_lowered("VALVE INDEX LEFT", "valve index left"), "Knuckles L");
    assert_eq!(shorten_lowered("Trägerkontroller Ä", "trägerkontroller ä"), "Trägerkontroller Ä");
    assert_eq!(shorten_lowered("Öffentlicher Tracker", "öffentlicher tracker"), "Tracker");
    assert_eq!(shorten_lowered("Ein Zwei Drei", "ein zwei drei"), "Ein Zwei");
    assert_eq!(shorten_device_name("ÖFFENTLICHER TRACKER"), "Tracker");
}

#[test]
fn devices_without_battery_may_have_any_serial() {
    let cats = vec![Category {
        index: 0,
        name: "LH".to_string(),
        devices: vec![dev("Tracker", "€€€", "LH", 0, 0, None)],
    }];
    let s: AppState<u32> = AppState::new(config("€€€", ""), Some(1), cats);
    assert_eq!(s.selected_source().unwrap().name, "Tracker");
    assert!(s.battery_status_list().is_empty());
}
