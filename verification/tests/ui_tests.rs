use spacecal_for_monado::ui::device_list::{button_label, row_activation, row_layout, DeviceRow, RowActivation};
use spacecal_for_monado::ui::device_selector::serial_suffix;
use spacecal_for_monado::ui::window::{
    battery_icon_name, battery_style_class, confidence_color, floor_request, poll_interval_ms, reset_request, sampled_request, reset_menu_action, sample_menu_choice,
    MovementRequest, PopoverTracker, ResetMenuAction, SampleMenuChoice, CONNECTED_POLL_MS, DISCONNECTED_POLL_MS,
};
use spacecal_for_monado::ui::Device;

fn dev(name: &str, serial: &str, description: &str, cat: &str) -> Device {
    Device {
        name: name.to_string(),
        serial: serial.to_string(),
        description: description.to_string(),
        category: cat.to_string(),
        category_index: 0,
        device_index: 0,
        battery_charge: None,
        battery_charging: false,
    }
}

#[test]
fn display_name_forms() {
    assert_eq!(dev("Vive Tracker", "LHR-EEBBC131", "", "LH").display_name(), "Vive Tracker [EEBBC131]");
    assert_eq!(dev("Vive Tracker", "ABC", "", "LH").display_name(), "Vive Tracker [ABC]");
    assert_eq!(dev("HMD", "HMD", "left eye", "LH").display_name(), "HMD (left eye)");
    assert_eq!(dev("HMD", "", "", "LH").display_name(), "HMD");
}

#[test]
fn serial_suffix_is_last_eight_bytes() {
    assert_eq!(serial_suffix("LHR-EEBBC131"), "EEBBC131");
    assert_eq!(serial_suffix("12345678"), "12345678");
    assert_eq!(serial_suffix(""), "");
}

#[test]
fn unique_id_prefers_serial() {
    assert_eq!(dev("A", "S", "", "c").unique_id(), "S");
    assert_eq!(dev("A", "", "", "c").unique_id(), "A");
}

#[test]
fn devices_compare_by_identity() {
    let a = dev("Tracker", "S1", "", "c");
    let mut b = dev("Tracker", "S1", "", "c");
    b.battery_charging = true;
    assert!(a == b.clone());
    assert!(a != dev("Tracker", "S2", "", "c"));
}

#[test]
fn rows_have_headings_per_category() {
    let devices = vec![dev("A", "1", "", "WiVRn"), dev("B", "2", "", "LH"), dev("C", "3", "", "LH")];
    let rows = row_layout(&devices);
    let shown: Vec<String> = rows
        .iter()
        .map(|r| match r {
            DeviceRow::NoDevice => "none".to_string(),
            DeviceRow::CategoryHeader(c) => format!("head {}", c),
            DeviceRow::Device(i) => format!("dev {}", i),
        })
        .collect();
    assert_eq!(shown, vec!["none", "head WiVRn", "dev 0", "head LH", "dev 1", "dev 2"]);
    assert_eq!(row_activation(&devices, 0), RowActivation::SelectNone);
    assert_eq!(row_activation(&devices, 1), RowActivation::Nothing);
    assert_eq!(row_activation(&devices, 2), RowActivation::SelectDevice(0));
    assert_eq!(row_activation(&devices, 5), RowActivation::SelectDevice(2));
    assert_eq!(row_activation(&devices, 6), RowActivation::Nothing);
    assert_eq!(row_activation(&devices, -1), RowActivation::Nothing);
}

#[test]
fn empty_list_has_only_the_none_row() {
    let rows = row_layout(&Vec::new());
    assert_eq!(rows.len(), 1);
    assert!(matches!(rows[0], DeviceRow::NoDevice));
}

#[test]
fn device_without_category_gets_no_heading() {
    let rows = row_layout(&vec![dev("A", "1", "", "")]);
    assert_eq!(rows.len(), 2);
    assert!(matches!(rows[1], DeviceRow::Device(0)));
}

#[test]
fn button_label_cases() {
    let devices = vec![dev("Vive Tracker", "LHR-EEBBC131", "", "LH")];
    assert_eq!(button_label(&devices, None), ("(None)".to_string(), false));
    assert_eq!(button_label(&devices, Some("LHR-EEBBC131")), ("Vive Tracker [EEBBC131]".to_string(), true));
    assert_eq!(button_label(&devices, Some("gone")), ("gone".to_string(), true));
}

#[test]
fn confidence_colours() {
    assert_eq!(confidence_color(10), "#a51d2d");
    assert_eq!(confidence_color(50), "#e01b24");
    assert_eq!(confidence_color(75), "#e66100");
    assert_eq!(confidence_color(80), "#c88800");
    assert_eq!(confidence_color(90), "#2ec27e");
}

#[test]
fn battery_icons_and_styles() {
    assert_eq!(battery_icon_name(80, false), "battery-full-symbolic");
    assert_eq!(battery_icon_name(75, false), "battery-good-symbolic");
    assert_eq!(battery_icon_name(40, true), "battery-low-charging-symbolic");
    assert_eq!(battery_icon_name(15, true), "battery-caution-charging-symbolic");
    assert_eq!(battery_style_class(15), "error");
    assert_eq!(battery_style_class(40), "warning");
    assert_eq!(battery_style_class(41), "dim-label");
}

#[test]
fn poll_intervals() {
    assert_eq!(poll_interval_ms(true), CONNECTED_POLL_MS);
    assert_eq!(poll_interval_ms(false), DISCONNECTED_POLL_MS);
    assert_eq!(CONNECTED_POLL_MS, 5000);
    assert_eq!(DISCONNECTED_POLL_MS, 500);
}

#[test]
fn menu_rows() {
    assert_eq!(sample_menu_choice(0, 4), SampleMenuChoice::Count(200));
    assert_eq!(sample_menu_choice(2, 4), SampleMenuChoice::Count(600));
    assert_eq!(sample_menu_choice(3, 4), SampleMenuChoice::Nothing);
    assert_eq!(sample_menu_choice(4, 4), SampleMenuChoice::ToggleContinuous);
    assert_eq!(reset_menu_action(1, 2), ResetMenuAction::Origin(1));
    assert_eq!(reset_menu_action(2, 2), ResetMenuAction::Nothing);
    assert_eq!(reset_menu_action(3, 2), ResetMenuAction::Floor);
    assert_eq!(reset_menu_action(4, 2), ResetMenuAction::Center);
    assert_eq!(reset_menu_action(5, 2), ResetMenuAction::Nothing);
}

#[test]
fn popovers_start_and_stop_detection() {
    let mut t = PopoverTracker::new();
    assert_eq!(t.visibility_changed(true, true), Some(MovementRequest::Start));
    assert_eq!(t.visibility_changed(true, true), None);
    assert_eq!(t.visibility_changed(false, true), None);
    assert_eq!(t.visibility_changed(false, true), Some(MovementRequest::Stop));
    assert_eq!(t.open, 0);
    assert_eq!(t.visibility_changed(true, false), None);
    assert_eq!(t.visibility_changed(false, false), Some(MovementRequest::Stop));
    assert_eq!(t.visibility_changed(false, false), Some(MovementRequest::Stop));
    assert_eq!(t.open, 0);
}

#[test]
fn buttons_need_their_selections() {
    let src = dev("Vive Tracker", "LHR-EEBBC131", "", "LH");
    let mut tgt = dev("WiVRn HMD", "", "", "WiVRn");
    tgt.category_index = 4;
    let q = sampled_request(Some(&src), Some(&tgt)).unwrap();
    assert_eq!(q.source_serial, "LHR-EEBBC131");
    assert_eq!(q.target_serial, "WiVRn HMD");
    assert_eq!(q.target_origin_index, 4);
    assert_eq!(sampled_request(Some(&src), None).err(), Some("Select both source and target devices".to_string()));
    assert_eq!(sampled_request(None, Some(&tgt)).err(), Some("Select both source and target devices".to_string()));
    assert_eq!(floor_request(Some(&tgt)), Ok("WiVRn HMD".to_string()));
    assert_eq!(floor_request(None), Err("Select a target device first, then place it on the floor".to_string()));
    assert_eq!(reset_request(Some(&tgt)), Ok(4));
    assert_eq!(reset_request(None), Err("Select a target device first".to_string()));
}

#[test]
fn serial_tail_only_matters_when_shown() {
    // a serial equal to the name is never cut
    assert_eq!(dev("€€€", "€€€", "", "LH").display_name(), "€€€");
    assert_eq!(button_label(&vec![dev("A", "€€€", "", "LH")], Some("other")), ("other".to_string(), true));
}
