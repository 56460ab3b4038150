//! The session around the models: starting, detecting, identifying, reporting.

use vigilo_core::config::Config;
use vigilo_core::error::DetectError;
use vigilo_core::models::StageTimings;
use vigilo_core::number::{Arithmetic, Number};
use vigilo_core::pipeline::start::{Action, Stage};
use vigilo_core::pipeline::workers::{
    assemble, has_crop, take_new, worker_done, Checked, DetectWorker, FaceHealth, GazeRun, Measured, PoseRun,
};
use vigilo_core::pipeline::{log_events, log_violation, Captured, Detector, IdentityResult, ObjectResult};
use vigilo_core::types::{
    BBox, DegradeReason, Event, FaceDetection, GateReason, HeadPose, ObjectDetection, PipelineStats, Severity, Signals,
    SlotState, Violation, ViolationKind,
};

/// Arithmetic on the machine's own floating-point numbers.
struct Machine;

fn of(n: Number) -> f64 {
    f64::from_bits(n.bits)
}

fn num(x: f32) -> Number {
    Number { bits: (x as f64).to_bits() }
}

fn wide(x: f64) -> Number {
    Number { bits: x.to_bits() }
}

impl Arithmetic for Machine {
    fn blend(&self, alpha: Number, sample: Number, previous: Number) -> Number {
        wide(of(alpha) * of(sample) + (1.0 - of(alpha)) * of(previous))
    }

    fn ramp(&self, value: Number, enter: Number) -> Number {
        let r = (((of(value) - of(enter)) / of(enter)) as f32).clamp(0.0, 1.0);
        wide(r as f64)
    }

    fn decay(&self, score: Number, elapsed_ms: u64, half_life_ms: u64) -> Number {
        wide(of(score) * 0.5f64.powf(elapsed_ms as f64 / half_life_ms as f64))
    }

    fn sum(&self, a: Number, b: Number) -> Number {
        wide(of(a) + of(b))
    }

    fn difference(&self, a: Number, b: Number) -> Number {
        wide(of(a) - of(b))
    }

    fn degrees(&self, radians: Number) -> Number {
        wide((of(radians) as f32).to_degrees() as f64)
    }

    fn shown(&self, value: Number, places: u32) -> String {
        format!("{:.*}", places as usize, of(value))
    }
}

fn face(score: f32) -> FaceDetection {
    FaceDetection {
        bbox: BBox { x: num(10.0), y: num(10.0), w: num(50.0), h: num(60.0) },
        score: num(score),
        keypoints: None,
    }
}

fn phone() -> ObjectDetection {
    ObjectDetection {
        class_id: 67,
        label: "cell phone".into(),
        score: num(0.8),
        bbox: BBox { x: num(1.0), y: num(2.0), w: num(3.0), h: num(4.0) },
    }
}

fn timings(a: u32, b: u32, c: u32) -> StageTimings {
    StageTimings { preprocess_us: a, inference_us: b, postprocess_us: c }
}

fn measured(seq: u64, t_ms: u64, faces: Vec<FaceDetection>) -> Measured {
    Measured {
        seq,
        t_ms,
        faces,
        timings: timings(10, 200, 5),
        pose_configured: false,
        pose: None,
        gaze_configured: false,
        gaze: None,
    }
}

fn with_models() -> Config {
    let mut cfg = Config::default();
    cfg.models.face = Some("face.onnx".into());
    cfg.models.gaze = Some("gaze.onnx".into());
    cfg.models.objects = Some("objects.onnx".into());
    cfg.models.identity = Some("identity.onnx".into());
    cfg
}

#[test]
fn a_detector_without_a_face_model_refuses_to_start() {
    // Failing at start with a clear reason beats degrading into a detector that
    // detects nothing and says nothing.
    let mut det = Detector::builder().build().unwrap();
    let err = det.start("dir:frames").unwrap_err().to_string();
    assert!(err.contains("models.face"), "{err}");
}

#[test]
fn snapshot_is_valid_before_anything_has_been_detected() {
    // A display polls from the moment the window opens, which is before the
    // first frame exists.
    let det = Detector::builder().build().unwrap();
    let state = det.snapshot(None, PipelineStats::default());
    assert_eq!(state.face_count, 0);
    assert_eq!(state.stats.frames_captured, 0);
    assert!(state.active_violations.is_empty());
}

#[test]
fn a_second_start_is_refused_rather_than_spawning_more_threads() {
    let mut cfg = Config::default();
    cfg.models.face = Some("models/does-not-exist.onnx".into());
    let mut det = Detector::builder().config(cfg).build().unwrap();

    // First start fails on the missing model, leaving no threads behind.
    let (mut starting, action) = det.start("dir:frames").unwrap();
    assert_eq!(action, Action::LoadFace { path: "models/does-not-exist.onnx".into() });
    assert!(det.advance(&mut starting, Err("no such file".into())).is_err());
    assert!(!det.is_running());
}

#[test]
fn detector_hot_reloads_config() {
    let mut det = Detector::builder().build().unwrap();
    assert_eq!(det.current_config().thresholds.face.no_face_hold_ms, 2500);

    let mut new_cfg = det.current_config().clone();
    new_cfg.thresholds.face.no_face_hold_ms = 8000;
    assert!(det.update_config(new_cfg).is_ok(), "update succeeds");
    assert_eq!(det.current_config().thresholds.face.no_face_hold_ms, 8000);

    let mut bad = det.current_config().clone();
    bad.thresholds.pose.yaw_exit_deg = num(90.0);
    assert!(det.update_config(bad).is_err());
    assert_eq!(det.current_config().thresholds.face.no_face_hold_ms, 8000);
}

#[test]
fn models_come_from_the_configuration_a_session_was_built_with() {
    let mut det = Detector::builder().config(with_models()).build().unwrap();
    let mut other = with_models();
    other.models.face = None;
    other.thresholds.face.no_face_hold_ms = 1;
    assert!(det.update_config(other).is_ok());
    assert_eq!(det.current_config().thresholds.face.no_face_hold_ms, 1);
    assert_eq!(det.built_config(), &with_models());
    assert_eq!(det.start("camera:0").unwrap().1, Action::LoadFace { path: "face.onnx".into() });
}

#[test]
fn an_invalid_configuration_builds_no_detector() {
    let mut bad = Config::default();
    bad.thresholds.objects.clear_score = num(9.0);
    assert!(Detector::builder().config(bad).build().is_err());
}

#[test]
fn a_start_goes_through_every_configured_stage() {
    let mut det = Detector::builder().config(with_models()).build().unwrap();
    let (mut starting, first) = det.start("camera:0").unwrap();
    let mut actions = vec![first];
    while starting.stage != Stage::Running {
        let (action, event) = det.advance(&mut starting, Ok(())).unwrap();
        assert_eq!(event, None);
        actions.push(action);
    }
    assert_eq!(
        actions,
        vec![
            Action::LoadFace { path: "face.onnx".into() },
            Action::LoadGaze { path: "gaze.onnx".into() },
            Action::SpawnCapture,
            Action::LoadObjects { path: "objects.onnx".into() },
            Action::LoadIdentity { path: "identity.onnx".into() },
            Action::SpawnDetect,
            Action::SpawnObjects,
            Action::SpawnIdentity,
            Action::Running,
        ]
    );
    assert!(det.is_running());
    assert_eq!(det.start("camera:0"), Err(DetectError::Config("detector is already running".into())));
}

#[test]
fn a_model_that_will_not_load_is_done_without() {
    let mut det = Detector::builder().config(with_models()).build().unwrap();
    let (mut starting, _) = det.start("camera:0").unwrap();
    det.advance(&mut starting, Ok(())).unwrap();
    let reason = DegradeReason::ModelUnavailable { model: "gaze".into(), why: "bad file".into() };
    assert_eq!(
        det.advance(&mut starting, Err("bad file".into())).unwrap(),
        (Action::SpawnCapture, Some(Event::Degraded(reason.clone())))
    );
    det.advance(&mut starting, Ok(())).unwrap();
    let (next, _) = det.advance(&mut starting, Err("no objects".into())).unwrap();
    assert_eq!(next, Action::LoadIdentity { path: "identity.onnx".into() });
    let (next, _) = det.advance(&mut starting, Ok(())).unwrap();
    assert_eq!(next, Action::SpawnDetect);
    let (next, _) = det.advance(&mut starting, Ok(())).unwrap();
    assert_eq!(next, Action::SpawnIdentity, "no thread for a model that did not load");
    let state = det.snapshot(None, PipelineStats::default());
    assert_eq!(state.degraded.len(), 2);
    assert_eq!(state.degraded[0], reason);
}

#[test]
fn a_thread_that_will_not_spawn_stops_the_start() {
    let mut cfg = Config::default();
    cfg.models.face = Some("face.onnx".into());
    let mut det = Detector::builder().config(cfg).build().unwrap();
    let (mut starting, _) = det.start("camera:0").unwrap();
    det.advance(&mut starting, Ok(())).unwrap();
    assert_eq!(
        det.advance(&mut starting, Err("out of threads".into())),
        Err(DetectError::Config("spawning capture thread: out of threads".into()))
    );
}

#[test]
fn a_worker_finishes_the_last_frame_before_it_stops() {
    assert!(worker_done(true, false, 9, 3));
    assert!(!worker_done(false, false, 3, 3));
    assert!(!worker_done(false, true, 4, 3));
    assert!(worker_done(false, true, 3, 3));
}

#[test]
fn object_results_are_handed_out_once() {
    let mut cursor = 0;
    let result = ObjectResult::produced(vec![phone()], 7);
    let (first, state) = result.take_new(&mut cursor);
    assert_eq!((first.len(), state, cursor), (1, SlotState::Produced, 7));
    let (again, state) = result.take_new(&mut cursor);
    assert_eq!((again.len(), state, cursor), (0, SlotState::SkippedCadence, 7));

    let mut fresh = 0;
    assert_eq!(ObjectResult::absent().take_new(&mut fresh).1, SlotState::NotConfigured);
    assert_eq!(ObjectResult::armed().take_new(&mut fresh).1, SlotState::SkippedCadence);
    assert_eq!(ObjectResult::failed(3).take_new(&mut fresh), (vec![], SlotState::Failed));
}

#[test]
fn identity_results_are_handed_out_once() {
    let mut cursor = 0;
    let result = IdentityResult { score: Some(num(0.5)), seq: 4, state: SlotState::Produced };
    assert_eq!(result.take_new(&mut cursor), (Some(num(0.5)), SlotState::Produced));
    assert_eq!(result.take_new(&mut cursor), (None, SlotState::SkippedCadence));
    assert_eq!(IdentityResult::absent().take_new(&mut cursor), (None, SlotState::NotConfigured));
}

#[test]
fn a_frame_is_put_together_from_what_ran() {
    let pose = HeadPose { yaw_deg: num(1.0), pitch_deg: num(2.0), roll_deg: num(3.0) };
    let mut m = measured(4, 100, vec![face(0.9)]);
    m.pose_configured = true;
    m.pose = Some(PoseRun::Produced { pose, timings: timings(1, 2, 3) });
    m.gaze_configured = true;
    m.gaze = Some(GazeRun::Gated(GateReason::EyesTooClose));
    let (s, t) = assemble(m, vec![phone()], SlotState::Produced, None, SlotState::NotConfigured);
    assert_eq!((s.seq, s.t_ms, s.faces.len(), s.objects.len()), (4, 100, 1, 1));
    assert_eq!(s.head_pose, Some(pose));
    assert_eq!(s.produced_by.pose, SlotState::Produced);
    assert_eq!(s.produced_by.gaze, SlotState::SkippedGated);
    assert_eq!(s.produced_by.gaze_gate, Some(GateReason::EyesTooClose));
    assert_eq!(t, timings(11, 202, 8));
}

#[test]
fn without_a_face_the_face_models_are_gated() {
    assert!(has_crop(true, 1) && !has_crop(true, 0) && !has_crop(false, 1));
    let mut m = measured(1, 0, vec![]);
    m.pose_configured = true;
    m.gaze_configured = true;
    let (s, _) = assemble(m, vec![], SlotState::SkippedCadence, None, SlotState::NotConfigured);
    assert_eq!(s.produced_by.pose, SlotState::SkippedGated);
    assert_eq!(s.produced_by.gaze, SlotState::SkippedGated);
    assert_eq!(s.produced_by.gaze_gate, Some(GateReason::NoFace));

    let mut failing = measured(1, 0, vec![face(0.9)]);
    failing.pose_configured = true;
    failing.pose = Some(PoseRun::Failed);
    failing.gaze_configured = true;
    failing.gaze = Some(GazeRun::Failed);
    let (s, _) = assemble(failing, vec![], SlotState::Failed, None, SlotState::NotConfigured);
    assert_eq!(s.produced_by.pose, SlotState::Failed);
    assert_eq!(s.produced_by.gaze, SlotState::Failed);
    assert_eq!(s.produced_by.gaze_gate, None);
}

#[test]
fn face_failures_are_reported_once_and_so_is_the_recovery() {
    let mut health = FaceHealth::new();
    assert_eq!(health.fail("a"), None);
    assert_eq!(health.fail("b"), None);
    assert_eq!(
        health.fail("c"),
        Some(Event::Degraded(DegradeReason::InferenceFailing { model: "yunet".into(), why: "c".into() }))
    );
    assert_eq!(health.fail("d"), None);
    assert_eq!(health.succeed(), Some(Event::Recovered));
    assert_eq!(health.succeed(), None);
}

#[test]
fn a_session_logs_what_fusion_reports() {
    let mut det = Detector::builder().build().unwrap();
    let mut worker = DetectWorker::new(det.current_config());
    worker.face_failed("a");
    worker.face_failed("b");
    assert!(worker.face_failed("c").is_some());

    let mut events = Vec::new();
    let mut seq = 0;
    let mut detect_us = 0;
    let mut latest = Signals::default();
    for t in 0..60u64 {
        seq += 1;
        let faces = if t < 10 { vec![face(0.9)] } else { vec![] };
        assert!(worker.can_count() && worker.can_fail());
        let out = worker.detected(&mut det, measured(seq, t * 100, faces), &Machine);
        assert_eq!(out.total_us, 215);
        detect_us += out.detect_us;
        latest = out.signals;
        events.extend(out.events);
    }
    assert_eq!(detect_us, 60 * 200);
    assert_eq!(events[0], Event::Recovered);
    assert_eq!(det.violations().len(), 1);
    assert_eq!(det.violations()[0].kind, ViolationKind::NoFace);
    assert_eq!(det.violations()[0].t_end_ms, None);
    let state = det.snapshot(Some(&latest), PipelineStats::default());
    assert_eq!(state.active_violations, vec![ViolationKind::NoFace]);
    assert_eq!(state.stats.frames_detected, 60);

    let ended = worker.finish(&mut det, 6_000);
    assert_eq!(ended.len(), 1);
    assert_eq!(det.violations().len(), 1, "the row is closed, not repeated");
    assert_eq!(det.violations()[0].t_end_ms, Some(6_000));
    assert!(det.snapshot(Some(&latest), PipelineStats::default()).active_violations.is_empty());
}

#[test]
fn an_object_result_reaches_exactly_one_frame() {
    let mut det = Detector::builder().build().unwrap();
    let mut worker = DetectWorker::new(det.current_config());
    det.arm_objects();
    det.publish_objects(vec![phone()], 1);
    let mut carried = 0;
    for t in 0..5u64 {
        let out = worker.detected(&mut det, measured(t + 1, t * 100, vec![face(0.9)]), &Machine);
        carried += out.signals.objects.len();
        assert_eq!(out.signals.produced_by.objects.produced(), t == 0);
    }
    assert_eq!(carried, 1);
    det.publish_object_failure(6);
    let out = worker.detected(&mut det, measured(6, 600, vec![face(0.9)]), &Machine);
    assert_eq!(out.signals.produced_by.objects, SlotState::Failed);
}

#[test]
fn enrolment_takes_the_next_embedding() {
    let mut det = Detector::builder().build().unwrap();
    assert!(!det.is_comparable(None));
    assert!(!det.is_comparable(Some(num(0.1))));
    assert!(det.is_comparable(Some(num(0.95))));

    let first = vec![num(1.0), num(0.0)];
    let second = vec![num(0.0), num(1.0)];
    assert_eq!(det.note_embedding(&first), None);
    assert!(!det.is_enrolled());
    det.enrol();
    assert_eq!(det.note_embedding(&first), Some(first.clone()));
    assert!(det.is_enrolled());
    assert_eq!(det.note_embedding(&second), Some(first));

    let mut worker = DetectWorker::new(det.current_config());
    for (seq, checked, score, state) in [
        (1, Checked::NoUsableFace, None, SlotState::SkippedGated),
        (2, Checked::Failed, None, SlotState::Failed),
        (3, Checked::Unenrolled, None, SlotState::NotConfigured),
        (4, Checked::Compared(num(0.7)), Some(num(0.7)), SlotState::Produced),
    ] {
        det.note_checked(seq, checked);
        let out = worker.detected(&mut det, measured(seq, seq * 100, vec![face(0.9)]), &Machine);
        assert_eq!(out.signals.identity_match, score);
        assert_eq!(out.signals.produced_by.identity, state);
    }
}

#[test]
fn new_thresholds_start_fusion_over() {
    let mut det = Detector::builder().build().unwrap();
    let mut worker = DetectWorker::new(det.current_config());
    for t in 0..30u64 {
        worker.detected(&mut det, measured(t + 1, t * 100, if t == 0 { vec![face(0.9)] } else { vec![] }), &Machine);
    }
    assert_eq!(det.violations().len(), 1);
    let cfg = det.current_config().clone();
    worker.reload(&cfg);
    let out = worker.detected(&mut det, measured(31, 3_000, vec![face(0.9)]), &Machine);
    assert!(out.events.is_empty());
    assert!(worker.finish(&mut det, 3_100).is_empty());
}

#[test]
fn capture_tells_why_it_ended() {
    let mut det = Detector::builder().build().unwrap();
    assert_eq!(det.note_captured(&Captured::Frame), None);
    assert!(!det.capture_done());
    assert_eq!(det.note_captured(&Captured::Exhausted), None);
    assert!(det.capture_done() && det.source_ended());

    let mut lost = Detector::builder().build().unwrap();
    let event = lost.note_captured(&Captured::Failed("unplugged".into()));
    assert_eq!(event, Some(Event::Degraded(DegradeReason::CameraLost("unplugged".into()))));
    assert_eq!(lost.error(), Some("unplugged".to_string()));
    assert!(lost.capture_done());

    let mut stopped = Detector::builder().build().unwrap();
    stopped.stop();
    assert!(stopped.is_stopping());
    assert_eq!(stopped.note_captured(&Captured::Stopped), None);
    assert!(stopped.capture_done());
}

#[test]
fn a_reason_is_listed_once() {
    let mut det = Detector::builder().build().unwrap();
    det.note_degraded(DegradeReason::CameraLost("a".into()));
    det.note_degraded(DegradeReason::CameraLost("a".into()));
    det.note_degraded(DegradeReason::CameraLost("b".into()));
    assert_eq!(det.snapshot(None, PipelineStats::default()).degraded.len(), 2);
    det.set_error("first");
    assert!(det.error().is_some());
}

#[test]
fn a_report_says_which_signals_ran() {
    let mut cfg = Config::default();
    cfg.models.face = Some("face.onnx".into());
    let mut det = Detector::builder().config(cfg).build().unwrap();
    det.start("dir:frames").unwrap();
    let mut worker = DetectWorker::new(det.current_config());
    for t in 0..4u64 {
        worker.detected(&mut det, measured(t + 1, t * 100, vec![face(0.9)]), &Machine);
    }
    det.count_skipped(2);
    let stats = PipelineStats { frames_captured: 6, ..PipelineStats::default() };
    let report = det.report(stats, 0);
    assert_eq!(report.source, "dir:frames");
    assert_eq!((report.frames.captured, report.frames.processed, report.frames.skipped), (6, 4, 2));
    let slots: Vec<(&str, bool)> = report.signals.iter().map(|s| (s.slot.as_str(), s.active)).collect();
    assert!(slots.contains(&("face", true)), "{slots:?}");
    assert!(slots.contains(&("gaze", false)), "{slots:?}");
    assert_eq!(det.stats(stats).frames_skipped, 2);
    assert_eq!(report.signals.len(), 5);
    assert!(report.violations.is_empty());
}

#[test]
fn a_report_holds_every_violation_and_the_active_configuration() {
    let mut cfg = Config::default();
    cfg.models.face = Some("face.onnx".into());
    let mut det = Detector::builder().config(cfg.clone()).build().unwrap();
    det.start("dir:frames").unwrap();
    cfg.thresholds.face.multi_face_hold_ms = 0;
    cfg.thresholds.face.multi_face_clear_ms = 0;
    det.update_config(cfg.clone()).unwrap();
    let mut worker = DetectWorker::new(det.current_config());
    worker.detected(&mut det, measured(1, 0, vec![face(0.9), face(0.8)]), &Machine);
    worker.detected(&mut det, measured(2, 100, vec![face(0.9)]), &Machine);
    worker.detected(&mut det, measured(3, 200, vec![face(0.9), face(0.8)]), &Machine);
    let report = det.report(PipelineStats::default(), 0);
    assert_eq!(report.violations, det.violations());
    assert_eq!(report.violations.len(), 2);
    assert_eq!((report.violations[0].t_start_ms, report.violations[0].t_end_ms), (0, Some(100)));
    assert_eq!((report.violations[1].t_start_ms, report.violations[1].t_end_ms), (200, None));
    assert_eq!(report.config, cfg);
}

#[test]
fn a_snapshot_shows_the_latest_frame() {
    let det = Detector::builder().build().unwrap();
    let latest = Signals { seq: 8, t_ms: 800, faces: vec![face(0.9), face(0.8)], ..Signals::default() };
    let state = det.snapshot(Some(&latest), PipelineStats::default());
    assert_eq!((state.seq, state.t_ms, state.face_count), (8, 800, 2));
}

fn violation(kind: ViolationKind, start: u64, end: Option<u64>) -> Violation {
    Violation {
        kind,
        severity: Severity::Medium,
        confidence: num(0.5),
        t_start_ms: start,
        t_end_ms: end,
        subject: None,
        evidence: None,
        contributing: vec![],
    }
}

#[test]
fn the_log_has_one_row_per_violation() {
    let mut log = Vec::new();
    log_violation(&mut log, &violation(ViolationKind::NoFace, 10, None), true);
    log_violation(&mut log, &violation(ViolationKind::NoFace, 10, Some(20)), true);
    assert_eq!(log.len(), 1);
    assert_eq!(log[0].t_end_ms, Some(20));

    let events = vec![
        Event::ViolationStarted(violation(ViolationKind::NoFace, 30, None)),
        Event::Recovered,
        Event::ViolationEnded(violation(ViolationKind::NoFace, 30, Some(40))),
    ];
    log_events(&mut log, &events, true);
    assert_eq!(log.len(), 2);
    assert_eq!(log[1].t_end_ms, Some(40));

    log_events(&mut log, &vec![Event::ViolationEnded(violation(ViolationKind::SignalLost, 1, Some(2)))], false);
    assert_eq!(log.len(), 2, "a row is not added when only ends are logged");
}

#[test]
fn a_slow_reader_skips_what_it_missed() {
    let mut seen = 0;
    assert_eq!(take_new(0, &mut seen), None);
    assert_eq!(take_new(1, &mut seen), Some(0));
    assert_eq!(take_new(1, &mut seen), None);
    assert_eq!(take_new(5, &mut seen), Some(3));
    assert_eq!(seen, 5);
}

#[test]
fn what_a_frame_took_has_to_add_up() {
    let mut m = measured(1, 0, vec![face(0.9)]);
    m.timings = timings(0, u32::MAX, 0);
    assert!(m.can_count());
    m.pose_configured = true;
    let pose = HeadPose { yaw_deg: num(0.0), pitch_deg: num(0.0), roll_deg: num(0.0) };
    m.pose = Some(PoseRun::Produced { pose, timings: timings(1, 0, 0) });
    assert!(!m.can_count());
}
