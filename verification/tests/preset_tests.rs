use spacecal_for_monado::preset::{preset_file_name, preset_name_from_file, sanitize_filename, sort_preset_names, PresetDevices};

#[test]
fn test_sanitize_filename() {
    assert_eq!(sanitize_filename("My Preset"), "My-Preset");
    assert_eq!(sanitize_filename("preset/with:special"), "preset_with_special");
}

#[test]
fn sanitize_keeps_unicode_letters_and_digits() {
    assert_eq!(sanitize_filename("Ünïcode 2"), "Ünïcode-2");
    assert_eq!(sanitize_filename("a-b_c"), "a-b_c");
    assert_eq!(sanitize_filename(""), "");
}

#[test]
fn sanitize_is_stable() {
    let once = sanitize_filename("Lab setup: v2/final");
    assert_eq!(once, "Lab-setup_-v2_final");
    assert_eq!(sanitize_filename(&once), once);
}

#[test]
fn preset_file_name_appends_extension() {
    assert_eq!(preset_file_name("My Preset"), "My-Preset.toml");
    assert_eq!(preset_file_name("x.y"), "x_y.toml");
}

#[test]
fn preset_names_are_sorted() {
    let names = vec!["beta".to_string(), "Alpha".to_string(), "alpha".to_string(), "beta".to_string()];
    assert_eq!(sort_preset_names(names), vec!["Alpha", "alpha", "beta", "beta"]);
    assert_eq!(sort_preset_names(Vec::new()), Vec::<String>::new());
}

#[test]
fn preset_devices_hold_identifiers() {
    let d = PresetDevices { source: "WiVRn HMD".to_string(), target: "LHR-EEBBC131".to_string() };
    let c = d.clone();
    assert_eq!(c.source, "WiVRn HMD");
    assert_eq!(c.target, "LHR-EEBBC131");
}

#[test]
fn preset_names_come_from_toml_files() {
    assert_eq!(preset_name_from_file("My-Preset.toml"), Some("My-Preset".to_string()));
    assert_eq!(preset_name_from_file("a.b.toml"), Some("a.b".to_string()));
    assert_eq!(preset_name_from_file("..toml"), Some(".".to_string()));
    assert_eq!(preset_name_from_file(".toml"), None);
    assert_eq!(preset_name_from_file("x.TOML"), None);
    assert_eq!(preset_name_from_file("notes.txt"), None);
    assert_eq!(preset_name_from_file("toml"), None);
    assert_eq!(preset_name_from_file("a.toml.bak"), None);
}

#[test]
fn a_saved_preset_is_listed_under_its_sanitized_name() {
    let file = preset_file_name("Lab setup");
    assert_eq!(preset_name_from_file(&file), Some(sanitize_filename("Lab setup")));
}
