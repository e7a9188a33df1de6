//! Collection of pose samples for a sampled calibration.

use vstd::prelude::*;
use crate::error::CalibrationError;

verus! {

/// Fewest samples the rotation and translation solvers accept.
pub const MIN_SAMPLES: usize = 3;

/// Collects samples until a target count is reached.  `T` is the sample
/// type (a pair of device poses).
pub struct SampleCollector<T> {
    samples: Vec<T>,
    target_count: u32,
}

impl<T> View for SampleCollector<T> {
    type V = (Seq<T>, u32);

    closed spec fn view(&self) -> (Seq<T>, u32) {
        (self.samples@, self.target_count)
    }
}

impl<T> SampleCollector<T> {
    /// An empty collector aiming at `target_count` samples.
    pub fn new(target_count: u32) -> (c: Self)
        ensures
            c@ == (Seq::<T>::empty(), target_count),
    {
        SampleCollector { samples: Vec::with_capacity(target_count as usize), target_count }
    }

    /// Adds a sample that passed validation; `validation` is the outcome of
    /// checking it (finite positions, unit quaternions).  A rejected sample
    /// is dropped and its error returned.
    pub fn add_sample(&mut self, sample: T, validation: Result<(), CalibrationError>) -> (r: Result<(), CalibrationError>)
        ensures
            r == validation,
            final(self)@ == (if validation is Ok { (old(self)@.0.push(sample), old(self)@.1) } else { old(self)@ }),
    {
        if validation.is_ok() {
            self.samples.push(sample);
        }
        validation
    }

    /// Adds a sample without validation.
    pub fn add_sample_unchecked(&mut self, sample: T)
        ensures
            final(self)@ == (old(self)@.0.push(sample), old(self)@.1),
    {
        self.samples.push(sample);
    }

    /// The samples collected so far, oldest first.
    pub fn samples(&self) -> (s: &[T])
        ensures
            s@ == self@.0,
    {
        self.samples.as_slice()
    }

    /// Number of samples collected (as a `u32`, truncating).
    pub fn sample_count(&self) -> (n: u32)
        ensures
            n == self@.0.len() as u32,
    {
        self.samples.len() as u32
    }

    /// Whether the target count is reached.
    pub fn is_complete(&self) -> (b: bool)
        ensures
            b == (self@.0.len() >= self@.1),
    {
        self.samples.len() >= self.target_count as usize
    }

    /// (collected, target).
    pub fn progress(&self) -> (p: (u32, u32))
        ensures
            p == (self@.0.len() as u32, self@.1),
    {
        (self.sample_count(), self.target_count)
    }

    /// The first check of a calibration run: at least `MIN_SAMPLES` samples.
    pub fn check_enough_samples(&self) -> (r: Result<(), CalibrationError>)
        ensures
            self@.0.len() >= MIN_SAMPLES ==> r is Ok,
            self@.0.len() < MIN_SAMPLES ==> r == Err::<(), CalibrationError>(
                CalibrationError::InsufficientSamples { required: MIN_SAMPLES, collected: self@.0.len() as usize },
            ),
    {
        if self.samples.len() < MIN_SAMPLES {
            Err(CalibrationError::InsufficientSamples { required: MIN_SAMPLES, collected: self.samples.len() })
        } else {
            Ok(())
        }
    }
}

} // verus!
