//! The course of a sampling run, one step at a time: the countdown before
//! it, what each pose reading leads to, and how the run ends.  The loop that
//! reads the poses and sleeps between steps runs outside the library.

use vstd::prelude::*;
use crate::calibration::sampled::SampleCollector;
use crate::error::CalibrationError;

verus! {

/// Seconds counted down before a sampled calibration or a recenter starts.
pub const COUNTDOWN_SECONDS: u32 = 3;

/// The countdown before a run: it announces 3, 2 and 1, a second apart.
pub struct Countdown {
    remaining: u32,
}

impl View for Countdown {
    type V = u32;

    /// Seconds still to announce.
    closed spec fn view(&self) -> u32 {
        self.remaining
    }
}

impl Countdown {
    /// A countdown that has announced nothing yet.
    pub fn new() -> (c: Self)
        ensures
            c@ == COUNTDOWN_SECONDS,
    {
        Countdown { remaining: COUNTDOWN_SECONDS }
    }

    /// The next second to announce (then a second passes), or `None` when
    /// the countdown is over.
    pub fn next(&mut self) -> (r: Option<u32>)
        ensures
            old(self)@ > 0 ==> r == Some(old(self)@) && final(self)@ == old(self)@ - 1,
            old(self)@ == 0 ==> r is None && final(self)@ == 0,
    {
        if self.remaining == 0 {
            None
        } else {
            let s = self.remaining;
            self.remaining = s - 1;
            Some(s)
        }
    }
}

/// What reading the two device poses gave.
pub enum PoseOutcome<T> {
    /// One of the poses is not tracked at the moment: no sample.
    Untracked,
    /// Locating a pose failed, with this message.
    LocateFailed(String),
    /// Both poses were read: the sample and the outcome of checking it.
    Located(T, Result<(), CalibrationError>),
}

/// What the loop does after a step.
#[derive(Debug, Clone)]
pub enum SampleAction {
    /// Wait for the next sampling time and read again.
    Wait,
    /// Report progress; wait and read again unless the run is complete.
    Progress { collected: u32, total: u32 },
    /// Report this error; the run stops.
    Abort(String),
    /// Report the sample's error; the run stops.
    Rejected(CalibrationError),
}

/// A sampled calibration run: samples are collected until the target count
/// is reached or a step stops the run.
pub struct SampledRun<T> {
    collector: SampleCollector<T>,
    stopped: bool,
}

/// A run as plain values: the samples, the target count, and whether a step
/// stopped it.
pub struct SampledRunView<T> {
    pub samples: Seq<T>,
    pub target: u32,
    pub stopped: bool,
}

impl<T> SampledRunView<T> {
    /// More samples are to be read.
    pub open spec fn running(self) -> bool {
        !self.stopped && self.samples.len() < self.target
    }
}

impl<T> View for SampledRun<T> {
    type V = SampledRunView<T>;

    closed spec fn view(&self) -> SampledRunView<T> {
        SampledRunView { samples: self.collector@.0, target: self.collector@.1, stopped: self.stopped }
    }
}

/// The message of a run that ended before enough samples were in.
pub open spec fn incomplete_message() -> Seq<char> {
    "Sample collection incomplete"@
}

impl<T> SampledRun<T> {
    /// A run aiming at `sample_count` samples, none taken.
    pub fn new(sample_count: u32) -> (r: Self)
        ensures
            r@.samples == Seq::<T>::empty(),
            r@.target == sample_count,
            !r@.stopped,
    {
        SampledRun { collector: SampleCollector::new(sample_count), stopped: false }
    }

    /// Whether the loop goes on reading poses.
    pub fn is_running(&self) -> (b: bool)
        ensures
            b == self@.running(),
    {
        !self.stopped && !self.collector.is_complete()
    }

    /// One reading of the poses.
    pub fn step(&mut self, outcome: PoseOutcome<T>) -> (a: SampleAction)
        requires
            old(self)@.running(),
        ensures
            final(self)@.target == old(self)@.target,
            match outcome {
                PoseOutcome::Untracked => a is Wait && final(self)@ == old(self)@,
                PoseOutcome::LocateFailed(m) => a == SampleAction::Abort(m) && final(self)@.stopped
                    && final(self)@.samples == old(self)@.samples,
                PoseOutcome::Located(t, Err(e)) => a == SampleAction::Rejected(e) && final(self)@.stopped
                    && final(self)@.samples == old(self)@.samples,
                PoseOutcome::Located(t, Ok(())) => !final(self)@.stopped
                    && final(self)@.samples == old(self)@.samples.push(t)
                    && a == (SampleAction::Progress {
                        collected: (old(self)@.samples.len() + 1) as u32,
                        total: old(self)@.target,
                    }),
            },
    {
        match outcome {
            PoseOutcome::Untracked => SampleAction::Wait,
            PoseOutcome::LocateFailed(m) => {
                self.stopped = true;
                SampleAction::Abort(m)
            },
            PoseOutcome::Located(t, validation) => match self.collector.add_sample(t, validation) {
                Ok(()) => {
                    let (collected, total) = self.collector.progress();
                    SampleAction::Progress { collected, total }
                },
                Err(e) => {
                    self.stopped = true;
                    SampleAction::Rejected(e)
                },
            },
        }
    }

    /// The end of the run: the collected samples when the target count was
    /// reached, the incomplete error otherwise.
    pub fn finish(self) -> (r: Result<SampleCollector<T>, String>)
        ensures
            match r {
                Ok(c) => self@.samples.len() >= self@.target && c@ == (self@.samples, self@.target),
                Err(m) => self@.samples.len() < self@.target && m@ == incomplete_message(),
            },
    {
        if self.collector.is_complete() {
            Ok(self.collector)
        } else {
            Err("Sample collection incomplete".to_owned())
        }
    }
}

} // verus!
