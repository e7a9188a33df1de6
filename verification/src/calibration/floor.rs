//! Floor sampling: heights of a device resting on the floor are collected
//! until enough are in; the median and spread are computed outside the
//! library from the collected samples.

use vstd::prelude::*;

verus! {

/// Samples taken per floor calibration.
pub const DEFAULT_SAMPLE_COUNT: u32 = 30;

/// What the floor loop does after offering a reading.
#[derive(Clone, Copy, Debug, PartialEq, Eq, Structural)]
pub enum FloorAction {
    /// No height was read: wait for the next sampling time.
    Wait,
    /// Report progress, wait and read again.
    Progress { collected: u32, total: u32 },
    /// The run is complete: compute the adjustment from the samples.
    Complete,
}

/// Collects floor heights (`T`) while active.
pub struct FloorCalibrator<T> {
    sample_count: u32,
    samples: Vec<T>,
    is_active: bool,
}

/// A floor calibrator as plain values: samples wanted, samples taken, active.
pub struct FloorCalibratorView<T> {
    pub sample_count: u32,
    pub samples: Seq<T>,
    pub is_active: bool,
}

impl<T> View for FloorCalibrator<T> {
    type V = FloorCalibratorView<T>;

    closed spec fn view(&self) -> FloorCalibratorView<T> {
        FloorCalibratorView { sample_count: self.sample_count, samples: self.samples@, is_active: self.is_active }
    }
}

impl<T> FloorCalibrator<T> {
    /// An idle calibrator taking `sample_count` samples per run.
    pub fn new(sample_count: u32) -> (c: Self)
        ensures
            c@.sample_count == sample_count,
            c@.samples == Seq::<T>::empty(),
            !c@.is_active,
    {
        FloorCalibrator { sample_count, samples: Vec::new(), is_active: false }
    }

    /// An idle calibrator taking `DEFAULT_SAMPLE_COUNT` samples per run.
    pub fn with_default_config() -> (c: Self)
        ensures
            c@.sample_count == DEFAULT_SAMPLE_COUNT,
            c@.samples == Seq::<T>::empty(),
            !c@.is_active,
    {
        Self::new(DEFAULT_SAMPLE_COUNT)
    }

    /// Starts a run: forgets earlier samples and accepts new ones.
    pub fn start(&mut self)
        ensures
            final(self)@.sample_count == old(self)@.sample_count,
            final(self)@.samples == Seq::<T>::empty(),
            final(self)@.is_active,
    {
        self.samples.clear();
        self.is_active = true;
    }

    pub fn is_active(&self) -> (b: bool)
        ensures
            b == self@.is_active,
    {
        self.is_active
    }

    /// Offers one height.  Ignored unless a run is active; returns true when
    /// this sample completes the run, which then ends.
    pub fn add_sample(&mut self, height: T) -> (complete: bool)
        ensures
            !old(self)@.is_active ==> !complete && final(self)@ == old(self)@,
            old(self)@.is_active ==> {
                &&& final(self)@.samples == old(self)@.samples.push(height)
                &&& final(self)@.sample_count == old(self)@.sample_count
                &&& complete == (old(self)@.samples.len() + 1 >= old(self)@.sample_count)
                &&& final(self)@.is_active == !complete
            },
    {
        if !self.is_active {
            return false;
        }
        self.samples.push(height);
        if self.samples.len() >= self.sample_count as usize {
            self.is_active = false;
            return true;
        }
        false
    }

    /// One step of the floor loop: `height` is the device's height when its
    /// position could be read.
    pub fn step(&mut self, height: Option<T>) -> (a: FloorAction)
        ensures
            height is None ==> a == FloorAction::Wait && final(self)@ == old(self)@,
            height is Some && !old(self)@.is_active ==> final(self)@ == old(self)@ && a == (FloorAction::Progress {
                collected: old(self)@.samples.len() as u32,
                total: old(self)@.sample_count,
            }),
            height is Some && old(self)@.is_active ==> {
                &&& final(self)@.samples == old(self)@.samples.push(height->0)
                &&& final(self)@.sample_count == old(self)@.sample_count
                &&& final(self)@.is_active == (old(self)@.samples.len() + 1 < old(self)@.sample_count)
                &&& a == (if old(self)@.samples.len() + 1 >= old(self)@.sample_count {
                    FloorAction::Complete
                } else {
                    FloorAction::Progress {
                        collected: (old(self)@.samples.len() + 1) as u32,
                        total: old(self)@.sample_count,
                    }
                })
            },
    {
        match height {
            None => FloorAction::Wait,
            Some(h) => {
                if self.add_sample(h) {
                    FloorAction::Complete
                } else {
                    let (collected, total) = self.progress();
                    FloorAction::Progress { collected, total }
                }
            },
        }
    }

    /// (collected, wanted).
    pub fn progress(&self) -> (p: (u32, u32))
        ensures
            p == (self@.samples.len() as u32, self@.sample_count),
    {
        (self.samples.len() as u32, self.sample_count)
    }

    /// The heights of the current or last run, in the order taken.
    pub fn samples(&self) -> (s: &[T])
        ensures
            s@ == self@.samples,
    {
        self.samples.as_slice()
    }
}

} // verus!
