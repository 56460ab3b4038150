//! The command line around the library: benchmarks, recordings, expectations.

use vigilo_core::cli::bench::{
    failed_row, list_models, models_heading, plan_bench, shape_text, source_heading, BenchPlan,
};
use vigilo_core::cli::coverage::CoverageTally;
use vigilo_core::cli::devices::{arrange, Mode};
use vigilo_core::cli::expect::{check_expectations, parse_expectation, starts_within, Seconds, REACH};
use vigilo_core::cli::live::{enough, nothing_captured, saves, Watched};
use vigilo_core::cli::record::{bad_line, count_started, ending, record_frame, record_lines, summarise, ObjectsRun};
use vigilo_core::cli::{live, record};
use vigilo_core::config::Config;
use vigilo_core::error::DetectError;
use vigilo_core::models::StageTimings;
use vigilo_core::number::Number;
use vigilo_core::pipeline::workers::Measured;
use vigilo_core::types::{
    BBox, Event, FaceDetection, GateReason, Severity, SignalCoverage, Signals, SlotState, Violation, ViolationKind,
};

/// Seconds on the machine's own floating-point numbers.
struct Clock;

fn of(n: Number) -> f32 {
    f64::from_bits(n.bits) as f32
}

fn num(x: f32) -> Number {
    Number { bits: (x as f64).to_bits() }
}

impl Seconds for Clock {
    fn read(&self, text: String) -> Option<Number> {
        text.parse::<f32>().ok().map(num)
    }

    fn difference(&self, a: Number, b: Number) -> Number {
        num(of(a) - of(b))
    }

    fn sum(&self, a: Number, b: Number) -> Number {
        num(of(a) + of(b))
    }

    fn of_ms(&self, ms: u64) -> Number {
        num(ms as f32 / 1000.0)
    }

    fn shown(&self, t: Number) -> String {
        format!("{:.2}", of(t))
    }
}

fn started(kind: ViolationKind, t_start_ms: u64) -> Event {
    Event::ViolationStarted(Violation {
        kind,
        severity: Severity::Medium,
        confidence: num(1.0),
        t_start_ms,
        t_end_ms: None,
        subject: None,
        evidence: None,
        contributing: vec![],
    })
}

#[test]
fn expectations_are_a_kind_and_a_window() {
    let e = parse_expectation("phone@2.1s", &Clock).unwrap();
    assert_eq!(e.kind, ViolationKind::ProhibitedObject);
    assert!((of(e.lo) - 0.6).abs() < 1e-5 && (of(e.hi) - 3.6).abs() < 1e-5);
    assert_eq!(of(Number { bits: REACH }), 1.5);
    let e = parse_expectation("phone@4", &Clock).unwrap();
    assert_eq!((of(e.lo), of(e.hi)), (2.5, 5.5));
    let e = parse_expectation("gaze@10-12", &Clock).unwrap();
    assert_eq!((e.kind, of(e.lo), of(e.hi)), (ViolationKind::GazeOffScreen, 10.0, 12.0));
    let e = parse_expectation("no_face@ 1 - 2s ", &Clock).unwrap();
    assert_eq!((of(e.lo), of(e.hi)), (1.0, 2.0));
}

#[test]
fn expectations_that_make_no_sense_say_why() {
    let said = |s: &str| parse_expectation(s, &Clock).unwrap_err();
    let config = |s: &str| DetectError::Config(s.into());
    assert_eq!(said("phone"), config("--expect phone: want KIND@SECS or KIND@START-END"));
    assert_eq!(said("fire@1"), config("--expect fire@1: `fire` is not a violation kind"));
    assert_eq!(said("phone@soon"), config("--expect phone@soon: soon is not a number of seconds"));
    assert_eq!(said("phone@1-x"), config("--expect phone@1-x: x is not a number of seconds"));
    assert_eq!(said("phone@x-y"), config("--expect phone@x-y: x is not a number of seconds"));
}

#[test]
fn a_timeline_is_held_against_its_expectations() {
    let events = vec![started(ViolationKind::NoFace, 7_500), Event::Recovered, started(ViolationKind::SignalLost, 9_000)];
    let ok = vec!["no_face@7.5".to_string(), "lost@8-10".to_string()];
    assert_eq!(check_expectations(&ok, &events, &Clock), Ok(()));
    assert_eq!(check_expectations(&vec![], &events, &Clock), Ok(()));

    let late = vec!["no_face@7.5".to_string(), "lost@10-12".to_string(), "nonsense".to_string()];
    assert_eq!(
        check_expectations(&late, &events, &Clock),
        Err(DetectError::Config(
            "expected signal_lost to start between 10.00s and 12.00s, but it did not. \
             Saw: no_face@7.50s, signal_lost@9.00s"
                .into()
        ))
    );
    assert_eq!(
        check_expectations(&vec!["phone@1-2".to_string()], &vec![], &Clock),
        Err(DetectError::Config(
            "expected prohibited_object to start between 1.00s and 2.00s, but it did not. Saw: nothing".into()
        ))
    );
    let e = parse_expectation("no_face@7.5-8", &Clock).unwrap();
    assert!(starts_within(&e, &events, &Clock));
    let e = parse_expectation("no_face@7.6-8", &Clock).unwrap();
    assert!(!starts_within(&e, &events, &Clock));
}

#[test]
fn a_benchmark_measures_what_it_was_asked_to() {
    assert_eq!(plan_bench(false, true, Some("m.onnx"), Some("camera:0")), Ok(BenchPlan::Model { path: "m.onnx".into() }));
    assert_eq!(plan_bench(false, true, None, Some("camera:0")), Ok(BenchPlan::AllModels));
    assert_eq!(plan_bench(false, false, None, Some("camera:0")), Ok(BenchPlan::Source { spec: "camera:0".into() }));
    assert!(plan_bench(true, true, Some("m.onnx"), None).unwrap_err().to_string().contains("--sweep-threads"));
    assert_eq!(
        plan_bench(false, false, None, None),
        Err(DetectError::Config("bench needs --source, --model <path> or --all".into()))
    );
}

#[test]
fn models_are_listed_by_name() {
    let names: Vec<String> =
        ["yolox.onnx", "README.md", "arcface.onnx", ".onnx", "x.ONNX"].iter().map(|s| s.to_string()).collect();
    assert_eq!(list_models(&names).unwrap(), vec!["arcface.onnx", "yolox.onnx"]);
    assert_eq!(
        list_models(&vec!["a.txt".into()]),
        Err(DetectError::Config("no .onnx files found in models/".into()))
    );
}

#[test]
fn reports_begin_as_they_should() {
    assert_eq!(shape_text(&vec![1, 3, 224, 224]), "1x3x224x224");
    assert_eq!(shape_text(&vec![]), "");
    assert!(models_heading(50, 3).starts_with("# detect-cli bench --all\n\nSynthetic zero-tensor forward passes, 50 iterations after 3 warm-up."));
    assert_eq!(failed_row("a", "b"), "| a | — | — | — | — | — | **failed: b** |\n");
    assert_eq!(
        source_heading("camera:0", 640, 480, 9),
        "# detect-cli bench\n\n- source: `camera:0`\n- resolution: 640x480\n- frames: 9\n"
    );
}

fn mode(codec: &str, width: u32, height: u32, fps: f32) -> Mode {
    Mode { codec: codec.into(), width, height, fps: num(fps) }
}

#[test]
fn modes_are_listed_fastest_and_largest_first() {
    let modes = vec![
        mode("yuyv422", 1280, 720, 10.0),
        mode("mjpeg", 640, 480, 30.0),
        mode("mjpeg", 1280, 720, 30.0),
        mode("mjpeg", 1280, 720, 30.0),
        mode("h264", 1280, 720, 30.0),
    ];
    assert_eq!(arrange(&modes), vec![2, 4, 1, 0]);
    assert!(arrange(&vec![]).is_empty());
}

#[test]
fn coverage_counts_states_and_reasons() {
    let mut tally = CoverageTally::new();
    let gated = SignalCoverage {
        face: SlotState::Produced,
        gaze: SlotState::SkippedGated,
        gaze_gate: Some(GateReason::NoFace),
        ..SignalCoverage::default()
    };
    let close = SignalCoverage { gaze_gate: Some(GateReason::EyesTooClose), ..gated };
    let ran = SignalCoverage { face: SlotState::Produced, gaze: SlotState::Produced, ..SignalCoverage::default() };
    for c in [gated, close, ran, gated] {
        tally.observe(&c);
    }
    assert_eq!(tally.frames, 4);
    assert_eq!(tally.face.rows(), vec![(SlotState::Produced, 4)]);
    assert_eq!(tally.gaze.rows(), vec![(SlotState::SkippedGated, 3), (SlotState::Produced, 1)]);
    assert_eq!(tally.pose.rows(), vec![(SlotState::NotConfigured, 4)]);
    assert_eq!(tally.gates.rows(), vec![(GateReason::NoFace, 2), (GateReason::EyesTooClose, 1)]);
    assert_eq!(tally.gates.rows_by_name(), vec![(GateReason::EyesTooClose, 1), (GateReason::NoFace, 2)]);
}

#[test]
fn watching_counts_each_detected_frame_once() {
    let mut w = Watched::new();
    assert_eq!(w.look(5), Some(0));
    assert_eq!(w.look(5), None);
    assert_eq!(w.look(9), Some(1));
    assert_eq!(w.seen, 2);
    assert!(saves(Some(3), 0) && !saves(Some(3), 1) && saves(Some(3), 3));
    assert!(!saves(Some(0), 0) && !saves(None, 0));
    assert!(enough(Some(2), 2) && !enough(Some(2), 1) && !enough(None, 1_000));
}

#[test]
fn nothing_captured_is_an_error_only_with_a_reason() {
    assert_eq!(nothing_captured(None), Ok(()));
    assert_eq!(nothing_captured(Some("busy".into())), Err(DetectError::Camera("busy".into())));
}

#[test]
fn both_commands_insist_on_a_face_model() {
    let mut cfg = Config::default();
    assert!(live::require_face(&cfg.models).unwrap_err().to_string().contains("face_detection_yunet_2023mar.onnx"));
    assert!(record::require_face(&cfg.models).unwrap_err().to_string().contains("set models.face"));
    cfg.models.face = Some("f.onnx".into());
    assert_eq!(live::require_face(&cfg.models), Ok("f.onnx".to_string()));
    assert_eq!(record::require_face(&cfg.models), Ok("f.onnx".to_string()));
}

#[test]
fn a_recorded_frame_never_skips_for_cadence() {
    let m = || Measured {
        seq: 3,
        t_ms: 90,
        faces: vec![],
        timings: StageTimings { preprocess_us: 0, inference_us: 0, postprocess_us: 0 },
        pose_configured: true,
        pose: None,
        gaze_configured: false,
        gaze: None,
    };
    let s = record_frame(m(), ObjectsRun::Produced(vec![]));
    assert_eq!((s.seq, s.t_ms), (3, 90));
    assert_eq!(s.produced_by.objects, SlotState::Produced);
    assert_eq!(s.produced_by.pose, SlotState::SkippedGated);
    assert_eq!(s.produced_by.identity, SlotState::NotConfigured);
    assert_eq!(record_frame(m(), ObjectsRun::Failed).produced_by.objects, SlotState::Failed);
    assert_eq!(record_frame(m(), ObjectsRun::Absent).produced_by.objects, SlotState::NotConfigured);
}

#[test]
fn recordings_are_read_line_by_line() {
    let lines = record_lines("a\n\n  \r\nb\r\nc");
    let found: Vec<(usize, &str)> = lines.iter().map(|l| (l.number, l.text.as_str())).collect();
    assert_eq!(found, vec![(1, "a"), (4, "b"), (5, "c")]);
    assert_eq!(
        bad_line("clip.jsonl", 4, "EOF"),
        DetectError::Config("clip.jsonl:4: not valid Signals JSON: EOF".into())
    );
}

fn frame(t_ms: u64, faces: usize) -> Signals {
    let face = FaceDetection {
        bbox: BBox::default(),
        score: num(0.9),
        keypoints: None,
    };
    Signals { t_ms, faces: vec![face; faces], ..Signals::default() }
}

#[test]
fn a_recording_adds_up() {
    let signals = vec![frame(100, 1), frame(200, 0), frame(350, 2)];
    let s = summarise(&signals);
    assert_eq!((s.count, s.faces, s.objects, s.frames_with_face), (3, 3, 0, 2));
    assert_eq!((s.first_t, s.last_t, s.span_ms()), (Some(100), 350, 250));
    assert_eq!(s.coverage.frames, 3);
    assert_eq!(s.coverage.face.absent, 3);
    assert_eq!(summarise(&[]).span_ms(), 0);
}

#[test]
fn violations_are_counted_and_measured() {
    let events = vec![started(ViolationKind::NoFace, 10), Event::Recovered, started(ViolationKind::NoFace, 20)];
    assert_eq!(count_started(&events), 2);
    let Event::ViolationStarted(mut v) = started(ViolationKind::NoFace, 10) else { unreachable!() };
    assert_eq!(ending(&v), (10, 0));
    v.t_end_ms = Some(35);
    assert_eq!(ending(&v), (35, 25));
}
