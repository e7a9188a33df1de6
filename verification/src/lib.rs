//! Verified core of a tracking-space calibrator for the Monado OpenXR runtime.

pub mod calibration;
pub mod config;
pub mod error;
pub mod keyed;
pub mod monado;
pub mod order;
pub mod preset;
pub mod text;
pub mod ui;
pub mod xr;
