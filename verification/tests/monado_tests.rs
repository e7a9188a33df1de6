use spacecal_for_monado::error::MonadoError;
use spacecal_for_monado::monado::{apply_battery_statuses, find_origin, group_devices, BatteryStatus, DeviceReading, TrackingOrigin};
use spacecal_for_monado::ui::device_selector::FloatBits;

fn bits(x: f32) -> FloatBits {
    FloatBits(x.to_bits())
}

fn reading(name: &str, serial: Option<&str>, origin: Option<u32>, index: u32, battery: Option<BatteryStatus>) -> DeviceReading {
    DeviceReading {
        name: name.to_string(),
        serial: serial.map(|s| s.to_string()),
        origin,
        index,
        battery,
    }
}

#[test]
fn devices_are_grouped_by_origin() {
    let origins = vec![
        TrackingOrigin { id: 5, name: "Lighthouse".to_string() },
        TrackingOrigin { id: 7, name: "WiVRn".to_string() },
    ];
    let readings = vec![
        reading("WiVRn HMD", Some("S1"), Some(7), 0, Some(BatteryStatus { present: true, charge: bits(0.5), charging: true })),
        reading("Vive Tracker", None, Some(99), 1, None),
        reading("Index Controller", Some("LHR-1"), None, 2, Some(BatteryStatus { present: false, charge: bits(0.9), charging: true })),
        reading("Vive Tracker", Some("LHR-2"), Some(5), 3, None),
    ];
    let cats = group_devices(origins, readings);
    assert_eq!(cats.len(), 2);
    assert_eq!(cats[0].index, 5);
    assert_eq!(cats[0].name, "Lighthouse");
    assert_eq!(cats[1].index, 7);
    assert_eq!(cats[1].name, "WiVRn");

    let lh: Vec<(&str, &str, u32)> = cats[0].devices.iter().map(|d| (d.name.as_str(), d.serial.as_str(), d.device_index)).collect();
    assert_eq!(lh, vec![("Vive Tracker", "", 1), ("Index Controller", "LHR-1", 2), ("Vive Tracker", "LHR-2", 3)]);
    for d in &cats[0].devices {
        assert_eq!(d.category, "Lighthouse");
        assert_eq!(d.category_index, 5);
        assert_eq!(d.description, "");
        assert_eq!(d.battery_charge, None);
        assert!(!d.battery_charging);
    }
    assert_eq!(cats[1].devices.len(), 1);
    let hmd = &cats[1].devices[0];
    assert_eq!(hmd.serial, "S1");
    assert_eq!(hmd.category, "WiVRn");
    assert_eq!(hmd.battery_charge, Some(bits(0.5)));
    assert!(hmd.battery_charging);
}

#[test]
fn no_origins_gives_a_default_category() {
    let cats = group_devices(Vec::new(), vec![reading("HMD", Some("A"), Some(3), 0, None)]);
    assert_eq!(cats.len(), 1);
    assert_eq!(cats[0].index, 0);
    assert_eq!(cats[0].name, "Default");
    assert_eq!(cats[0].devices.len(), 1);
    assert_eq!(cats[0].devices[0].category, "Default");
    assert_eq!(cats[0].devices[0].category_index, 0);
}

#[test]
fn battery_readings_are_applied_by_device_index() {
    let origins = vec![TrackingOrigin { id: 1, name: "Space".to_string() }];
    let readings = vec![
        reading("A", Some("a"), Some(1), 0, Some(BatteryStatus { present: true, charge: bits(0.2), charging: false })),
        reading("B", Some("b"), Some(1), 1, None),
        reading("C", Some("c"), Some(1), 2, None),
    ];
    let mut cats = group_devices(origins, readings);
    let fresh = vec![
        (1, Some(BatteryStatus { present: true, charge: bits(0.75), charging: true })),
        (2, Some(BatteryStatus { present: false, charge: bits(0.1), charging: false })),
        (0, None),
    ];
    apply_battery_statuses(&mut cats, &fresh);
    let d = &cats[0].devices;
    assert_eq!(d[0].battery_charge, None);
    assert_eq!(d[1].battery_charge, Some(bits(0.75)));
    assert!(d[1].battery_charging);
    assert_eq!(d[2].battery_charge, None);
    assert!(!d[2].battery_charging);
    assert_eq!(d[1].name, "B");
}

#[test]
fn later_battery_reading_wins() {
    let origins = vec![TrackingOrigin { id: 1, name: "Space".to_string() }];
    let mut cats = group_devices(origins, vec![reading("A", Some("a"), Some(1), 4, None)]);
    let fresh = vec![
        (4, Some(BatteryStatus { present: true, charge: bits(0.3), charging: false })),
        (4, Some(BatteryStatus { present: true, charge: bits(0.4), charging: true })),
    ];
    apply_battery_statuses(&mut cats, &fresh);
    assert_eq!(cats[0].devices[0].battery_charge, Some(bits(0.4)));
    assert!(cats[0].devices[0].battery_charging);
}

#[test]
fn origin_lookup() {
    let ids = vec![3, 8, 8, 12];
    assert_eq!(find_origin(&ids, 8).unwrap(), 1);
    assert_eq!(find_origin(&ids, 12).unwrap(), 3);
    assert!(matches!(find_origin(&ids, 5), Err(MonadoError::InvalidDeviceId(5))));
    assert!(matches!(find_origin(&Vec::new(), 0), Err(MonadoError::InvalidDeviceId(0))));
}
