//! Error types of the library.

use vstd::prelude::*;
use crate::ui::device_selector::FloatBits;

verus! {

/// Failures talking to the Monado service.
#[derive(Debug, Clone)]
pub enum MonadoError {
    ConnectionFailed(String),
    ApplyOffsetFailed(String),
    EnumerationFailed(String),
    InvalidDeviceId(u32),
    TrackingOriginFailed(String),
}

/// Failures setting up or using OpenXR.
#[derive(Debug, Clone)]
pub enum XrError {
    InstanceCreationFailed(String),
    SessionCreationFailed(String),
    ExtensionNotAvailable(String),
    RuntimeError(String),
}

/// Failures of a calibration run.
#[derive(Debug, Clone)]
pub enum CalibrationError {
    InsufficientSamples { collected: usize, required: usize },
    SvdFailed,
    InvalidPoseData(String),
    /// Sample spread (metres) above the allowed threshold.
    HighVariance { variance: FloatBits, threshold: FloatBits },
}

/// Failures loading or storing the configuration.
#[derive(Debug, Clone)]
pub enum ConfigError {
    LoadFailed(String),
    SaveFailed(String),
    InvalidFormat(String),
    DirectoryCreationFailed(String),
}

} // verus!
