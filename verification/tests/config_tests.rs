use spacecal_for_monado::config::{default_sample_count, Config};
use spacecal_for_monado::error::{ConfigError, MonadoError, XrError};

#[test]
fn default_sample_count_is_400() {
    assert_eq!(default_sample_count(), 400);
}

#[test]
fn default_config_is_empty() {
    let c = Config::default();
    assert_eq!(c.source, "");
    assert_eq!(c.target, "");
    assert!(!c.hide_calibration_help);
    assert_eq!(c.sample_count, 0);
    assert!(!c.continuous_enabled);
}

#[test]
fn error_values_carry_their_detail() {
    let e = ConfigError::SaveFailed("disk full".to_string());
    assert!(matches!(e.clone(), ConfigError::SaveFailed(ref m) if m == "disk full"));
    let m = MonadoError::InvalidDeviceId(4);
    assert!(matches!(m, MonadoError::InvalidDeviceId(4)));
    let x = XrError::ExtensionNotAvailable("XR_MNDX_xdev_space".to_string());
    assert!(format!("{:?}", x).contains("XR_MNDX_xdev_space"));
}
