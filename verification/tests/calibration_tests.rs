use nalgebra::{UnitQuaternion, Vector3};
use spacecal_for_monado::calibration::floor::{FloorAction, FloorCalibrator, DEFAULT_SAMPLE_COUNT};
use spacecal_for_monado::calibration::run::{Countdown, PoseOutcome, SampleAction, SampledRun};
use spacecal_for_monado::calibration::sampled::{SampleCollector, MIN_SAMPLES};
use spacecal_for_monado::error::CalibrationError;

type Sample = (Vector3<f64>, UnitQuaternion<f64>, Vector3<f64>, UnitQuaternion<f64>);

fn sample(sp: Vector3<f64>, sr: UnitQuaternion<f64>, tp: Vector3<f64>, tr: UnitQuaternion<f64>) -> Sample {
    (sp, sr, tp, tr)
}

#[test]
fn test_progress_tracking() {
    let mut c = SampleCollector::new(5);
    assert_eq!(c.progress(), (0, 5));
    for i in 0..5 {
        let p = Vector3::new(i as f64, 0.0, 0.0);
        c.add_sample_unchecked(sample(p, nalgebra::UnitQuaternion::identity(), p, nalgebra::UnitQuaternion::identity()));
    }
    assert_eq!(c.progress(), (5, 5));
    assert!(c.is_complete());
}

#[test]
fn collector_reports_insufficient_samples() {
    let mut c: SampleCollector<u32> = SampleCollector::new(10);
    c.add_sample_unchecked(1);
    c.add_sample_unchecked(2);
    match c.check_enough_samples() {
        Err(CalibrationError::InsufficientSamples { collected, required }) => {
            assert_eq!(collected, 2);
            assert_eq!(required, MIN_SAMPLES);
        }
        other => panic!("unexpected {:?}", other),
    }
    c.add_sample_unchecked(3);
    assert!(c.check_enough_samples().is_ok());
    assert!(!c.is_complete());
    assert_eq!(c.sample_count(), 3);
    assert_eq!(c.samples(), &[1, 2, 3]);
}

#[test]
fn collector_drops_rejected_samples() {
    let mut c: SampleCollector<u32> = SampleCollector::new(2);
    let r = c.add_sample(7, Err(CalibrationError::InvalidPoseData("nan".to_string())));
    assert!(matches!(r, Err(CalibrationError::InvalidPoseData(ref m)) if m == "nan"));
    assert_eq!(c.progress(), (0, 2));
    assert!(c.add_sample(8, Ok(())).is_ok());
    assert_eq!(c.samples(), &[8]);
}

#[test]
fn floor_calibrator_completes_after_default_count() {
    let mut cal: FloorCalibrator<f64> = FloorCalibrator::with_default_config();
    assert!(!cal.is_active());
    assert!(!cal.add_sample(0.5));
    assert_eq!(cal.progress(), (0, DEFAULT_SAMPLE_COUNT));
    cal.start();
    assert!(cal.is_active());
    for _ in 0..29 {
        assert!(!cal.add_sample(0.03));
    }
    assert!(cal.add_sample(0.03));
    assert!(!cal.is_active());
    assert_eq!(cal.progress(), (30, 30));
    assert_eq!(cal.samples().len(), 30);
    assert!(!cal.add_sample(0.03));
    cal.start();
    assert_eq!(cal.progress(), (0, 30));
}

#[test]
fn test_sample_validation() {
    let mut c = SampleCollector::new(1);
    let bad = sample(
        Vector3::new(f64::NAN, 0.0, 0.0),
        nalgebra::UnitQuaternion::identity(),
        Vector3::zeros(),
        nalgebra::UnitQuaternion::identity(),
    );
    // the check of a sample's numbers (done outside the library) rejects a NaN position
    let validation = if bad.0.iter().all(|v| v.is_finite()) {
        Ok(())
    } else {
        Err(CalibrationError::InvalidPoseData("Source position NaN/Inf".into()))
    };
    assert!(matches!(c.add_sample(bad, validation), Err(CalibrationError::InvalidPoseData(_))));
    assert_eq!(c.progress(), (0, 1));
}

#[test]
fn test_floor_calibration() {
    let mut cal: FloorCalibrator<f32> = FloorCalibrator::new(5);

    cal.start();
    assert!(cal.is_active());

    for _ in 0..4 {
        assert!(!cal.add_sample(0.03));
    }

    let result = cal.add_sample(0.03);
    assert!(result);
    assert!(!cal.is_active());
    assert_eq!(cal.samples(), &[0.03f32; 5]);
}

#[test]
fn countdown_announces_three_two_one() {
    let mut c = Countdown::new();
    assert_eq!(c.next(), Some(3));
    assert_eq!(c.next(), Some(2));
    assert_eq!(c.next(), Some(1));
    assert_eq!(c.next(), None);
    assert_eq!(c.next(), None);
}

#[test]
fn sampled_run_collects_until_complete() {
    let mut run: SampledRun<u32> = SampledRun::new(2);
    assert!(run.is_running());
    assert!(matches!(run.step(PoseOutcome::Untracked), SampleAction::Wait));
    assert!(matches!(run.step(PoseOutcome::Located(7, Ok(()))), SampleAction::Progress { collected: 1, total: 2 }));
    assert!(run.is_running());
    assert!(matches!(run.step(PoseOutcome::Located(8, Ok(()))), SampleAction::Progress { collected: 2, total: 2 }));
    assert!(!run.is_running());
    let collector = run.finish().unwrap();
    assert_eq!(collector.samples(), &[7, 8]);
}

#[test]
fn sampled_run_stops_on_failures() {
    let mut run: SampledRun<u32> = SampledRun::new(3);
    let a = run.step(PoseOutcome::LocateFailed("Failed to locate source space".to_string()));
    assert!(matches!(a, SampleAction::Abort(ref m) if m == "Failed to locate source space"));
    assert!(!run.is_running());
    assert_eq!(run.finish().err(), Some("Sample collection incomplete".to_string()));

    let mut run: SampledRun<u32> = SampledRun::new(3);
    run.step(PoseOutcome::Located(1, Ok(())));
    let a = run.step(PoseOutcome::Located(2, Err(CalibrationError::InvalidPoseData("bad".to_string()))));
    assert!(matches!(a, SampleAction::Rejected(CalibrationError::InvalidPoseData(ref m)) if m == "bad"));
    assert!(!run.is_running());
    assert_eq!(run.finish().err(), Some("Sample collection incomplete".to_string()));
}

#[test]
fn floor_steps() {
    let mut cal: FloorCalibrator<f32> = FloorCalibrator::new(2);
    cal.start();
    assert_eq!(cal.step(None), FloorAction::Wait);
    assert_eq!(cal.step(Some(0.1)), FloorAction::Progress { collected: 1, total: 2 });
    assert_eq!(cal.step(Some(0.2)), FloorAction::Complete);
    assert!(!cal.is_active());
    assert_eq!(cal.step(Some(0.3)), FloorAction::Progress { collected: 2, total: 2 });
    assert_eq!(cal.samples(), &[0.1, 0.2]);
}
