//! The settings kept between runs.  Reading and writing the file happens
//! outside the library.

use vstd::prelude::*;

verus! {

/// Sample count used when a stored configuration does not name one.
pub fn default_sample_count() -> (n: u32)
    ensures
        n == 400,
{
    400
}

/// The persisted settings: the selected devices (empty when none), whether
/// the calibration help is skipped, the sample count and the continuous mode.
#[derive(Debug, Clone)]
pub struct Config {
    pub source: String,
    pub target: String,
    pub hide_calibration_help: bool,
    pub sample_count: u32,
    pub continuous_enabled: bool,
}

impl Default for Config {
    /// Every field empty, false or zero; this is what a missing or unreadable
    /// file gives.
    fn default() -> (c: Self)
        ensures
            c.source@ == Seq::<char>::empty(),
            c.target@ == Seq::<char>::empty(),
            !c.hide_calibration_help,
            c.sample_count == 0,
            !c.continuous_enabled,
    {
        Config {
            source: String::new(),
            target: String::new(),
            hide_calibration_help: false,
            sample_count: 0,
            continuous_enabled: false,
        }
    }
}

} // verus!
