//! Replays: what a recording fusion is run on looks like, and what every replay
//! keeps to.

use vigilo_core::fusion::{self, FusionEngine};
use vigilo_core::number::{Arithmetic, Number};
use vigilo_core::types::{
    BBox, Event, EyeAspect, FaceDetection, Gaze, HeadPose, ObjectDetection, SignalCoverage, Signals, SlotState,
    ViolationKind,
};
use vigilo_core::Config;

/// Arithmetic on the machine's own floating-point numbers.
struct Machine;

fn of(n: Number) -> f64 {
    f64::from_bits(n.bits)
}

fn num(x: f32) -> Number {
    Number { bits: (x as f64).to_bits() }
}

fn wide(x: f64) -> Number {
    Number { bits: x.to_bits() }
}

impl Arithmetic for Machine {
    fn blend(&self, alpha: Number, sample: Number, previous: Number) -> Number {
        wide(of(alpha) * of(sample) + (1.0 - of(alpha)) * of(previous))
    }

    fn ramp(&self, value: Number, enter: Number) -> Number {
        let r = (((of(value) - of(enter)) / of(enter)) as f32).clamp(0.0, 1.0);
        wide(r as f64)
    }

    fn decay(&self, score: Number, elapsed_ms: u64, half_life_ms: u64) -> Number {
        wide(of(score) * 0.5f64.powf(elapsed_ms as f64 / half_life_ms as f64))
    }

    fn sum(&self, a: Number, b: Number) -> Number {
        wide(of(a) + of(b))
    }

    fn difference(&self, a: Number, b: Number) -> Number {
        wide(of(a) - of(b))
    }

    fn degrees(&self, radians: Number) -> Number {
        wide((of(radians) as f32).to_degrees() as f64)
    }

    fn shown(&self, value: Number, places: u32) -> String {
        format!("{:.*}", places as usize, of(value))
    }
}

/// A synthetic clip: someone looking progressively further left while a phone
/// enters frame.
fn synthetic_look_away_with_phone(frames: u64, fps: f32) -> Vec<Signals> {
    (0..frames)
        .map(|seq| {
            let t_ms = (seq as f64 * 1000.0 / fps as f64).round() as u64;
            let yaw = -(seq as f32) * 1.5; // turning left over time
            Signals {
                seq,
                t_ms,
                faces: vec![FaceDetection {
                    bbox: BBox { x: num(400.0), y: num(200.0), w: num(220.0), h: num(260.0) },
                    score: num(0.95),
                    keypoints: None,
                }],
                head_pose: Some(HeadPose { yaw_deg: num(yaw), pitch_deg: num(2.0), roll_deg: num(0.5) }),
                gaze: Some(Gaze {
                    pitch_rad: num(0.05),
                    yaw_rad: num(yaw.to_radians() * 0.8),
                    eye_yaw_rad: None,
                    eye_pitch_rad: None,
                }),
                objects: if t_ms >= 2000 {
                    vec![ObjectDetection {
                        class_id: 67,
                        label: "cell phone".into(),
                        score: num(0.71),
                        bbox: BBox { x: num(700.0), y: num(380.0), w: num(90.0), h: num(170.0) },
                    }]
                } else {
                    vec![]
                },
                identity_match: Some(num(0.68)),
                eye_aspect: Some(EyeAspect { left: num(0.29), right: num(0.30) }),
                produced_by: SignalCoverage {
                    face: SlotState::Produced,
                    pose: SlotState::Produced,
                    gaze: SlotState::Produced,
                    objects: if t_ms >= 2000 {
                        SlotState::Produced
                    } else {
                        SlotState::SkippedCadence
                    },
                    identity: if seq % 75 == 0 {
                        SlotState::Produced
                    } else {
                        SlotState::SkippedCadence
                    },
                    gaze_gate: None,
                },
            }
        })
        .collect()
}

#[test]
fn the_timebase_is_frame_derived_not_wall_clock() {
    // Timestamps come from the frame index and the declared rate, so a fast
    // machine and a slow one tune to the same thresholds.
    let signals = synthetic_look_away_with_phone(45, 15.0);
    assert_eq!(signals[0].t_ms, 0);
    assert_eq!(signals[15].t_ms, 1000);
    assert_eq!(signals[44].t_ms, 2933);
    assert!(signals.windows(2).all(|w| w[1].t_ms > w[0].t_ms), "timestamps must be monotonic");
}

#[test]
fn coverage_distinguishes_absent_from_never_ran() {
    let signals = synthetic_look_away_with_phone(45, 15.0);

    let early = &signals[0];
    assert!(early.objects.is_empty());
    assert!(
        !early.produced_by.objects.produced(),
        "an empty list from a frame the object worker never touched is not evidence that nothing was there"
    );

    let late = signals.iter().find(|s| s.t_ms >= 2000).unwrap();
    assert!(late.produced_by.objects.produced());
    assert_eq!(late.objects[0].label, "cell phone");
}

fn started(events: &[Event]) -> Vec<ViolationKind> {
    events
        .iter()
        .filter_map(|e| match e {
            Event::ViolationStarted(v) => Some(v.kind),
            _ => None,
        })
        .collect()
}

#[test]
fn the_clip_raises_what_it_shows() {
    let signals = synthetic_look_away_with_phone(120, 15.0);
    let events = fusion::replay(&signals, &Config::default(), &Machine);
    let kinds = started(&events);
    for kind in [ViolationKind::HeadTurnedAway, ViolationKind::GazeOffScreen, ViolationKind::ProhibitedObject] {
        assert_eq!(kinds.iter().filter(|k| **k == kind).count(), 1, "{kind:?} in {kinds:?}");
    }
    let detail = events
        .iter()
        .find_map(|e| match e {
            Event::ViolationStarted(v) if v.kind == ViolationKind::HeadTurnedAway => Some(v.contributing[0].detail.clone()),
            _ => None,
        })
        .unwrap();
    assert!(detail.contains("yaw"), "{detail}");
}

#[test]
fn a_replay_closes_what_it_opens() {
    let signals = synthetic_look_away_with_phone(120, 15.0);
    let events = fusion::replay(&signals, &Config::default(), &Machine);
    let ended = events.iter().filter(|e| matches!(e, Event::ViolationEnded(_))).count();
    assert!(ended > 0);
    assert_eq!(started(&events).len(), ended);
    assert!(fusion::replay(&[], &Config::default(), &Machine).is_empty());
}

#[test]
fn replaying_is_stepping_and_finishing() {
    let signals = synthetic_look_away_with_phone(90, 15.0);
    let cfg = Config::default();
    let mut engine = FusionEngine::new(&cfg);
    let mut events = Vec::new();
    for s in &signals {
        assert!(engine.can_count());
        events.extend(engine.step(s, s.t_ms, &Machine));
    }
    assert!(!engine.active().is_empty());
    assert_eq!(engine.active_detail().len(), engine.active().len());
    events.extend(engine.finish(signals.last().unwrap().t_ms));
    assert!(engine.active().is_empty());
    assert_eq!(events, fusion::replay(&signals, &cfg, &Machine));
}

#[test]
fn deciding_on_a_reading_is_the_step() {
    let cfg = Config::default();
    let mut stepped = FusionEngine::new(&cfg);
    let mut decided = FusionEngine::new(&cfg);
    for s in &synthetic_look_away_with_phone(90, 15.0) {
        let reading = decided.measure(s, s.t_ms, &Machine);
        let a = decided.decide(s, &reading, s.t_ms);
        let b = stepped.step(s, s.t_ms, &Machine);
        assert_eq!(a, b);
    }
}

#[test]
fn an_unmeasured_slot_decides_nothing() {
    // The values stay in place; only the coverage says that nothing was measured.
    let mut signals = synthetic_look_away_with_phone(120, 15.0);
    for s in &mut signals {
        s.produced_by.pose = SlotState::NotConfigured;
        s.produced_by.gaze = SlotState::NotConfigured;
        s.produced_by.objects = SlotState::NotConfigured;
        s.produced_by.identity = SlotState::NotConfigured;
    }
    let events = fusion::replay(&signals, &Config::default(), &Machine);
    assert!(events.is_empty(), "{events:?}");
}

#[test]
fn a_violation_opens_and_closes_on_the_frame_that_gives_reason_to() {
    let cfg = Config::default();
    let mut engine = FusionEngine::new(&cfg);
    let present = synthetic_look_away_with_phone(1, 15.0).remove(0).faces;
    let mut edges = Vec::new();
    for i in 0..100u64 {
        let t_ms = i * 100;
        let there = t_ms < 1_000 || t_ms >= 6_000;
        let s = Signals {
            seq: i,
            t_ms,
            faces: if there { present.clone() } else { vec![] },
            produced_by: SignalCoverage { face: SlotState::Produced, ..SignalCoverage::default() },
            ..Signals::default()
        };
        for e in engine.step(&s, t_ms, &Machine) {
            match e {
                Event::ViolationStarted(v) => edges.push(("start", v.kind, v.t_start_ms)),
                Event::ViolationEnded(v) => edges.push(("end", v.kind, v.t_end_ms.unwrap())),
                _ => {}
            }
        }
    }
    let gone = 1_000 + cfg.thresholds.face.no_face_hold_ms;
    let back = 6_000 + cfg.thresholds.face.no_face_clear_ms;
    assert_eq!(edges, vec![("start", ViolationKind::NoFace, gone), ("end", ViolationKind::NoFace, back)]);
}

#[test]
fn somebody_else_in_frame_is_reported() {
    let mut signals = synthetic_look_away_with_phone(60, 15.0);
    for s in &mut signals {
        s.head_pose = None;
        s.gaze = None;
        s.produced_by = SignalCoverage { face: SlotState::Produced, ..SignalCoverage::default() };
        let second = s.faces[0];
        s.faces.push(second);
    }
    let events = fusion::replay(&signals, &Config::default(), &Machine);
    assert_eq!(started(&events), vec![ViolationKind::MultipleFaces]);
}

fn checked(scores: &[f32]) -> Vec<Signals> {
    scores
        .iter()
        .enumerate()
        .map(|(i, score)| Signals {
            seq: i as u64,
            t_ms: i as u64 * 5_000,
            faces: synthetic_look_away_with_phone(1, 15.0).remove(0).faces,
            identity_match: Some(num(*score)),
            produced_by: SignalCoverage {
                face: SlotState::Produced,
                identity: SlotState::Produced,
                ..SignalCoverage::default()
            },
            ..Signals::default()
        })
        .collect()
}

fn checks(scores: &[f32]) -> Vec<ViolationKind> {
    started(&fusion::replay(&checked(scores), &Config::default(), &Machine))
}

#[test]
fn only_failures_in_a_row_accuse() {
    assert!(checks(&[0.1, 0.1, 0.9, 0.1, 0.1, 0.9]).is_empty(), "a recovery starts the count over");
    assert_eq!(checks(&[0.1, 0.1, 0.1]), vec![ViolationKind::IdentityMismatch]);
    // Between the two bars: neither a failure nor a recovery.
    assert_eq!(checks(&[0.1, 0.34, 0.1, 0.34, 0.1]), vec![ViolationKind::IdentityMismatch]);
}

#[test]
fn an_accusation_stands_until_a_check_passes() {
    let mut engine = FusionEngine::new(&Config::default());
    let mut signals = checked(&[0.1, 0.1, 0.1, 0.34, 0.1, 0.9, 0.5]);
    // The fifth check did not run; what its slot holds does not count.
    signals[4].identity_match = Some(num(0.9));
    signals[4].produced_by.identity = SlotState::SkippedCadence;
    let mut seen = Vec::new();
    for s in &signals {
        for e in engine.step(s, s.t_ms, &Machine) {
            match e {
                Event::ViolationStarted(v) => seen.push((v.kind, s.t_ms, false)),
                Event::ViolationEnded(v) => seen.push((v.kind, s.t_ms, true)),
                _ => {}
            }
        }
    }
    assert_eq!(
        seen,
        vec![(ViolationKind::IdentityMismatch, 10_000, false), (ViolationKind::IdentityMismatch, 25_000, true)]
    );
}
