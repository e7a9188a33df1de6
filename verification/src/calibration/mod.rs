//! Calibration bookkeeping: sample collection and floor sampling.  The
//! numeric solvers work on floating point and run outside the library, on
//! the samples collected here.

pub mod floor;
pub mod run;
pub mod sampled;

use vstd::prelude::*;
use crate::ui::device_selector::FloatBits;

verus! {

/// How strongly a device moves, for highlighting it in the pickers.
#[derive(Debug, Clone)]
pub struct DeviceMovement {
    pub device_id: String,
    /// Intensity from 0.0 (still) to 1.0 (moving now).
    pub intensity: FloatBits,
}

} // verus!
