//! Fusion behaviour, on hand-built signal sequences.
//!
//! Five properties matter here: the peaky phone fires, single-frame noise does
//! not, a steady turn crosses once, a calm session is silent, and the same
//! input twice gives the same output.

use vigilo_core::fusion;
use vigilo_core::number::{Arithmetic, Number};
use vigilo_core::types::{
    BBox, Event, FaceDetection, GateReason, Gaze, HeadPose, ObjectDetection, SignalCoverage,
    Signals, SlotState, ViolationKind,
};
use vigilo_core::Config;

/// Arithmetic on the machine's own floating-point numbers.
struct Machine;

fn of(n: Number) -> f64 {
    f64::from_bits(n.bits)
}

fn num(x: f32) -> Number {
    Number { bits: (x as f64).to_bits() }
}

fn wide(x: f64) -> Number {
    Number { bits: x.to_bits() }
}

impl Arithmetic for Machine {
    fn blend(&self, alpha: Number, sample: Number, previous: Number) -> Number {
        wide(of(alpha) * of(sample) + (1.0 - of(alpha)) * of(previous))
    }

    fn ramp(&self, value: Number, enter: Number) -> Number {
        let r = (((of(value) - of(enter)) / of(enter)) as f32).clamp(0.0, 1.0);
        wide(r as f64)
    }

    fn decay(&self, score: Number, elapsed_ms: u64, half_life_ms: u64) -> Number {
        wide(of(score) * 0.5f64.powf(elapsed_ms as f64 / half_life_ms as f64))
    }

    fn sum(&self, a: Number, b: Number) -> Number {
        wide(of(a) + of(b))
    }

    fn difference(&self, a: Number, b: Number) -> Number {
        wide(of(a) - of(b))
    }

    fn degrees(&self, radians: Number) -> Number {
        wide((of(radians) as f32).to_degrees() as f64)
    }

    fn shown(&self, value: Number, places: u32) -> String {
        format!("{:.*}", places as usize, of(value))
    }
}

/// A frame with a face present and nothing going on.
fn calm_frame(seq: u64, t_ms: u64) -> Signals {
    Signals {
        seq,
        t_ms,
        faces: vec![FaceDetection {
            bbox: BBox { x: num(500.0), y: num(250.0), w: num(210.0), h: num(250.0) },
            score: num(0.95),
            keypoints: None,
        }],
        head_pose: Some(HeadPose { yaw_deg: num(1.0), pitch_deg: num(-2.0), roll_deg: num(0.5) }),
        gaze: Some(Gaze {
            // 12.5 degrees in radians — exactly the configured offset, so this
            // is a candidate looking straight at the screen once corrected.
            pitch_rad: num(0.218),
            yaw_rad: num(0.02),
            eye_yaw_rad: None,
            eye_pitch_rad: None,
        }),
        objects: vec![],
        identity_match: None,
        eye_aspect: None,
        produced_by: SignalCoverage {
            face: SlotState::Produced,
            pose: SlotState::Produced,
            gaze: SlotState::Produced,
            objects: SlotState::SkippedCadence,
            identity: SlotState::NotConfigured,
            gaze_gate: None,
        },
    }
}

fn phone(score: f32) -> ObjectDetection {
    ObjectDetection {
        class_id: 67,
        label: "cell phone".into(),
        score: num(score),
        bbox: BBox { x: num(700.0), y: num(380.0), w: num(90.0), h: num(170.0) },
    }
}

fn labelled(label: &str, class_id: u32, score: f32) -> ObjectDetection {
    ObjectDetection {
        class_id,
        label: label.into(),
        score: num(score),
        bbox: BBox { x: num(700.0), y: num(380.0), w: num(90.0), h: num(170.0) },
    }
}

fn starts(events: &[Event], kind: ViolationKind) -> Vec<f32> {
    events
        .iter()
        .filter_map(|e| match e {
            Event::ViolationStarted(v) if v.kind == kind => Some(v.t_start_ms as f32 / 1000.0),
            _ => None,
        })
        .collect()
}

/// 15 Hz for `secs` seconds, with a hook to modify individual frames.
fn sequence(secs: u64, mut f: impl FnMut(&mut Signals, u64)) -> Vec<Signals> {
    (0..secs * 15)
        .map(|i| {
            let t_ms = i * 1000 / 15;
            let mut s = calm_frame(i, t_ms);
            f(&mut s, t_ms);
            s
        })
        .collect()
}

/// True on exactly the one frame per second the 1 Hz object worker runs on.
///
/// `t_ms` is `i * 1000 / 15`, so a whole second lands exactly on i = 0, 15,
/// 30... A range test like `t_ms % 1000 < 67` looks equivalent and matches
/// *two* frames per second, which silently doubles the sample rate and makes
/// every accumulator assertion below mean something other than it says.
fn object_tick(t_ms: u64) -> bool {
    t_ms.is_multiple_of(1000)
}

#[test]
fn a_peaky_phone_fires_despite_never_being_confidently_seen() {
    // The reason the accumulator exists. A phone plainly in
    // shot cleared 0.5 on only 26-42% of frames, so a per-sample threshold
    // misses most of the seconds it is there. These are real-shaped scores:
    // sampled at 1 Hz, mostly unconvincing, never absent.
    let scores = [0.62, 0.30, 0.71, 0.28, 0.80, 0.33, 0.77, 0.29, 0.68, 0.31];
    let signals = sequence(20, |s, t_ms| {
        if object_tick(t_ms) {
            if let Some(score) = scores.get((t_ms / 1000) as usize) {
                s.objects = vec![phone(*score)];
                s.produced_by.objects = SlotState::Produced;
            }
        }
    });

    let events = fusion::replay(&signals, &Config::default(), &Machine);
    let fired = starts(&events, ViolationKind::ProhibitedObject);
    assert_eq!(
        fired.len(),
        1,
        "a phone present for ten seconds must fire exactly once, got {fired:?}. \
         Single-frame thresholding is what this test exists to prevent."
    );

    let subject = events
        .iter()
        .find_map(|e| match e {
            Event::ViolationStarted(v) if v.kind == ViolationKind::ProhibitedObject => {
                v.subject.clone()
            }
            _ => None,
        })
        .unwrap();
    assert_eq!(subject, "handheld_device", "report the bucket, not the COCO class");
}

#[test]
fn a_phone_the_detector_called_remote_still_counts() {
    // The phone was labelled `remote` at 0.66 on frames
    // where it was plainly a phone. A literal-string allowlist throws those
    // away — a real detection lost to a label.
    let signals = sequence(20, |s, t_ms| {
        if object_tick(t_ms) && t_ms < 10_000 {
            s.objects = vec![labelled("remote", 65, 0.66)];
            s.produced_by.objects = SlotState::Produced;
        }
    });

    let events = fusion::replay(&signals, &Config::default(), &Machine);
    assert_eq!(
        starts(&events, ViolationKind::ProhibitedObject).len(),
        1,
        "a phone the detector called `remote` is still a phone"
    );
}

#[test]
fn a_single_noisy_detection_never_fires() {
    // The other half of the accumulator's job, and the one that decides whether
    // the system is usable at all: one spurious frame must raise nothing.
    let signals = sequence(20, |s, t_ms| {
        if t_ms == 0 {
            s.objects = vec![phone(0.9)];
            s.produced_by.objects = SlotState::Produced;
        }
    });

    let events = fusion::replay(&signals, &Config::default(), &Machine);
    assert!(
        starts(&events, ViolationKind::ProhibitedObject).is_empty(),
        "a lone detection is noise, not evidence: {events:?}"
    );
}

#[test]
fn a_laptop_does_not_count_as_a_handheld_device() {
    // Deliberate policy rather than an oversight: the candidate's own machine
    // is in shot for the whole exam, so putting `laptop` in the bucket would
    // fire continuously for every honest candidate.
    let signals = sequence(20, |s, t_ms| {
        if object_tick(t_ms) {
            s.objects = vec![labelled("laptop", 63, 0.95)];
            s.produced_by.objects = SlotState::Produced;
        }
    });

    let events = fusion::replay(&signals, &Config::default(), &Machine);
    assert!(starts(&events, ViolationKind::ProhibitedObject).is_empty());
}

#[test]
fn a_steady_head_turn_raises_exactly_one_violation() {
    // Hysteresis' purpose at the fusion level rather than the primitive level:
    // a head turning steadily past the threshold produces one violation, not
    // one per frame and not a burst around the boundary.
    let signals = sequence(10, |s, t_ms| {
        let yaw = (t_ms as f32 / 1000.0) * 6.0; // 0 -> 60 degrees over ten seconds
        s.head_pose = Some(HeadPose { yaw_deg: num(yaw), pitch_deg: num(0.0), roll_deg: num(0.0) });
    });

    let events = fusion::replay(&signals, &Config::default(), &Machine);
    let fired = starts(&events, ViolationKind::HeadTurnedAway);
    assert_eq!(fired.len(), 1, "a monotonic turn crosses once; got {fired:?}");
}

#[test]
fn a_calm_session_produces_no_violations_at_all() {
    // The acceptance test that matters most. False positives are what make a
    // proctoring system unusable — a candidate sitting still and behaving must
    // produce silence.
    let signals = sequence(120, |_, _| {});
    let events = fusion::replay(&signals, &Config::default(), &Machine);
    let raised: Vec<_> =
        events.iter().filter(|e| matches!(e, Event::ViolationStarted(_))).collect();
    assert!(raised.is_empty(), "two calm minutes must be silent, got {raised:?}");
}

#[test]
fn leaving_frame_raises_no_face_and_returning_clears_it() {
    let signals = sequence(20, |s, t_ms| {
        if (5_000..12_000).contains(&t_ms) {
            s.faces.clear();
            s.head_pose = None;
            s.gaze = None;
            s.produced_by.pose = SlotState::SkippedGated;
            s.produced_by.gaze = SlotState::SkippedGated;
            s.produced_by.gaze_gate = Some(GateReason::NoFace);
        }
    });

    let events = fusion::replay(&signals, &Config::default(), &Machine);
    let fired = starts(&events, ViolationKind::NoFace);
    assert_eq!(fired.len(), 1, "one absence, one violation: {fired:?}");
    // The face goes at 5 s and the hold is 2500 ms.
    assert!((fired[0] - 7.5).abs() < 0.2, "fired at {}s, expected ~7.5s", fired[0]);

    let ended = events.iter().any(|e| {
        matches!(e, Event::ViolationEnded(v)
            if v.kind == ViolationKind::NoFace && v.t_end_ms.is_some())
    });
    assert!(ended, "returning to frame must close it, with a duration");
}

#[test]
fn a_session_where_nobody_ever_appears_is_its_own_violation() {
    // "A face was here and now is not" is not enough of a rule: a candidate who never showed up produced nothing at all, and the empty
    // session was discovered only on review.
    let signals = sequence(20, |s, _| {
        s.faces.clear();
        s.head_pose = None;
        s.gaze = None;
        s.produced_by.pose = SlotState::NotConfigured;
        s.produced_by.gaze = SlotState::NotConfigured;
    });

    let events = fusion::replay(&signals, &Config::default(), &Machine);
    let fired = starts(&events, ViolationKind::NeverSeen);
    assert_eq!(fired.len(), 1, "expected NeverSeen, got {events:?}");
    assert!((fired[0] - 10.0).abs() < 0.2, "fired at {}s, expected ~10s", fired[0]);
    assert!(
        starts(&events, ViolationKind::NoFace).is_empty(),
        "NeverSeen owns this silence; firing NoFace as well would double-count it"
    );
}

#[test]
fn a_sustained_gate_reports_the_signal_as_lost() {
    // The soak found pose failing on 16 frames and gaze gated on 1.7%, both
    // invisible to any decision until now. A covered camera must not read as
    // "all clear".
    let signals = sequence(20, |s, t_ms| {
        if t_ms >= 4_000 {
            s.gaze = None;
            s.produced_by.gaze = SlotState::Failed;
        }
    });

    let events = fusion::replay(&signals, &Config::default(), &Machine);
    let fired = starts(&events, ViolationKind::SignalLost);
    assert_eq!(fired.len(), 1, "expected one SignalLost, got {fired:?}");
    assert!((fired[0] - 9.0).abs() < 0.2, "fired at {}s, expected ~9s", fired[0]);
}

#[test]
fn blinking_is_absorbed_rather_than_reported() {
    // Gaze gated for a few frames every couple of seconds is a person blinking.
    // If that reached the violation log the log would be useless.
    let signals = sequence(60, |s, t_ms| {
        if (t_ms / 100).is_multiple_of(20) {
            s.gaze = None;
            s.produced_by.gaze = SlotState::SkippedGated;
            s.produced_by.gaze_gate = Some(GateReason::EyesTooClose);
        }
    });

    let events = fusion::replay(&signals, &Config::default(), &Machine);
    assert!(
        starts(&events, ViolationKind::SignalLost).is_empty(),
        "blinks must be absorbed by the hold timer, got {events:?}"
    );
    assert!(
        starts(&events, ViolationKind::GazeOffScreen).is_empty(),
        "and a blink is certainly not gaze going off-screen"
    );
}

#[test]
fn the_same_recording_replays_to_the_same_events_every_time() {
    // The property everything else rests on. If replay is not deterministic, a
    // diff of two tuning runs is meaningless and no threshold change can be
    // attributed to the change that caused it.
    let signals = sequence(30, |s, t_ms| {
        if object_tick(t_ms) && (3_000..15_000).contains(&t_ms) {
            s.objects = vec![phone(0.55)];
            s.produced_by.objects = SlotState::Produced;
        }
        if (20_000..25_000).contains(&t_ms) {
            s.faces.clear();
        }
    });

    let cfg = Config::default();
    let first = fusion::replay(&signals, &cfg, &Machine);
    let second = fusion::replay(&signals, &cfg, &Machine);
    assert_eq!(first, second, "replay must be a pure function of its input");
    assert!(!first.is_empty(), "this clip should produce something worth comparing");
}

#[test]
fn thresholds_retune_from_a_partial_toml_without_touching_code() {
    // The deliverable is not the numbers — they are wrong and known to be. It
    // is that changing them is an edit of the thresholds and a re-run.
    let signals = sequence(20, |s, t_ms| {
        if object_tick(t_ms) && t_ms < 6_000 {
            s.objects = vec![phone(0.30)];
            s.produced_by.objects = SlotState::Produced;
        }
    });

    let default_events = fusion::replay(&signals, &Config::default(), &Machine);
    assert!(starts(&default_events, ViolationKind::ProhibitedObject).is_empty());

    // Both ends, because `validate` rejects an exit threshold above an enter
    // one — lowering `enter_score` alone would leave clear (0.6) above enter
    // (0.5) and the violation could never clear. Getting that error here rather
    // than a latched-on violation in a live session is the point of it.
    let mut tuned = Config::default();
    tuned.thresholds.objects.enter_score = num(0.5);
    tuned.thresholds.objects.clear_score = num(0.2);
    tuned.validate().unwrap();
    let tuned_events = fusion::replay(&signals, &tuned, &Machine);
    assert_eq!(
        starts(&tuned_events, ViolationKind::ProhibitedObject).len(),
        1,
        "lowering enter_score alone must change the outcome"
    );
}

#[test]
fn identity_needs_several_consecutive_failures_before_accusing() {
    // One bad crop — a half-turned head, motion blur, a hand across the face —
    // drops cosine similarity below any sane threshold. Accusing the wrong
    // candidate of impersonation on one blurry frame is the worst output this
    // system could produce.
    let one_bad = sequence(60, |s, t_ms| {
        if t_ms == 10_000 {
            s.identity_match = Some(num(0.10));
            s.produced_by.identity = SlotState::Produced;
        }
    });
    let events = fusion::replay(&one_bad, &Config::default(), &Machine);
    assert!(
        starts(&events, ViolationKind::IdentityMismatch).is_empty(),
        "a single failing check must never accuse: {events:?}"
    );

    // Sustained is different: three checks at 0.2 Hz is ~15 s of mismatch.
    // A check every 5 s, i.e. the real 0.2 Hz cadence.
    let sustained = sequence(60, |s, t_ms| {
        if t_ms >= 10_000 && t_ms.is_multiple_of(5_000) {
            s.identity_match = Some(num(0.10));
            s.produced_by.identity = SlotState::Produced;
        }
    });
    let events = fusion::replay(&sustained, &Config::default(), &Machine);
    assert_eq!(
        starts(&events, ViolationKind::IdentityMismatch).len(),
        1,
        "sustained mismatch must fire exactly once, got {events:?}"
    );
}

#[test]
fn an_unenrolled_session_never_claims_a_match_or_a_mismatch() {
    // `NotConfigured` means nobody enrolled, so there is nothing to compare
    // against. It must not read as a pass — an unverified session is not a
    // verified one.
    let signals = sequence(60, |s, _| {
        s.identity_match = None;
        s.produced_by.identity = SlotState::NotConfigured;
    });
    let events = fusion::replay(&signals, &Config::default(), &Machine);
    assert!(starts(&events, ViolationKind::IdentityMismatch).is_empty());
}

/// The subjects of the violations of one kind, as they start and as they end.
fn subjects(events: &[Event], kind: ViolationKind) -> (Vec<String>, Vec<String>) {
    let mut started = vec![];
    let mut ended = vec![];
    for e in events {
        match e {
            Event::ViolationStarted(v) if v.kind == kind => started.push(v.subject.clone().unwrap_or_default()),
            Event::ViolationEnded(v) if v.kind == kind => ended.push(v.subject.clone().unwrap_or_default()),
            _ => {}
        }
    }
    (started, ended)
}

#[test]
fn a_lost_signal_says_which_slot_and_why() {
    let mut cfg = Config::default();
    cfg.thresholds.fusion.signal_lost_ms = 1_000;
    let mut engine = fusion::FusionEngine::new(&cfg);
    let dark = |seq: u64, t_ms: u64| {
        let mut s = calm_frame(seq, t_ms);
        s.gaze = None;
        s.produced_by.gaze = SlotState::SkippedGated;
        s.produced_by.gaze_gate = Some(GateReason::NoFace);
        s.produced_by.pose = SlotState::NotConfigured;
        s
    };
    let first = engine.step(&dark(1, 0), 0, &Machine);
    assert!(subjects(&first, ViolationKind::SignalLost).0.is_empty());
    let second = engine.step(&dark(2, 1_000), 1_000, &Machine);
    assert_eq!(subjects(&second, ViolationKind::SignalLost).0, vec!["gaze: NoFace".to_string()]);
    assert_eq!(
        engine.active_detail(),
        vec![(ViolationKind::SignalLost, Some("gaze: NoFace".to_string()))]
    );
}

#[test]
fn a_lost_signal_keeps_its_reason_until_it_ends() {
    let signals = sequence(30, |s, t_ms| {
        if (2_000..15_000).contains(&t_ms) {
            s.gaze = None;
            s.head_pose = None;
            s.produced_by.pose = SlotState::SkippedGated;
            s.produced_by.gaze = SlotState::SkippedGated;
            s.produced_by.gaze_gate = Some(GateReason::EyesTooClose);
            if t_ms >= 9_000 {
                s.produced_by.pose = SlotState::Failed;
                s.produced_by.gaze = SlotState::Failed;
            }
        }
    });
    let events = fusion::replay(&signals, &Config::default(), &Machine);
    let expected = vec!["pose: gated".to_string(), "gaze: EyesTooClose".to_string()];
    assert_eq!(subjects(&events, ViolationKind::SignalLost), (expected.clone(), expected));
}

#[test]
fn an_angle_that_was_not_measured_never_counts() {
    let quiet = sequence(20, |s, t_ms| {
        if t_ms >= 3_000 {
            s.produced_by.pose = SlotState::SkippedCadence;
            s.head_pose = None;
        }
    });
    let loud = sequence(20, |s, t_ms| {
        if t_ms >= 3_000 {
            s.produced_by.pose = SlotState::SkippedCadence;
            s.head_pose = Some(HeadPose { yaw_deg: num(80.0), pitch_deg: num(0.0), roll_deg: num(0.0) });
        }
    });
    let cfg = Config::default();
    assert_eq!(fusion::replay(&quiet, &cfg, &Machine), fusion::replay(&loud, &cfg, &Machine));
}

fn detection(label: &str, score: f32) -> ObjectDetection {
    ObjectDetection {
        class_id: 0,
        label: label.into(),
        score: num(score),
        bbox: BBox { x: num(0.0), y: num(0.0), w: num(1.0), h: num(1.0) },
    }
}

#[test]
fn only_the_best_detection_of_a_bucket_counts() {
    let once = sequence(20, |s, t_ms| {
        if t_ms.is_multiple_of(1_000) {
            s.produced_by.objects = SlotState::Produced;
            s.objects = vec![detection("cell phone", 0.8)];
        }
    });
    let often = sequence(20, |s, t_ms| {
        if t_ms.is_multiple_of(1_000) {
            s.produced_by.objects = SlotState::Produced;
            s.objects = vec![
                detection("remote", 0.5),
                detection("cell phone", 0.8),
                detection("cell phone", 0.8),
                detection("book", 0.1),
                detection("laptop", 0.9),
            ];
        }
    });
    let cfg = Config::default();
    let events = fusion::replay(&once, &cfg, &Machine);
    assert_eq!(starts(&events, ViolationKind::ProhibitedObject).len(), 1);
    assert_eq!(events, fusion::replay(&often, &cfg, &Machine));
}

#[test]
fn frames_without_objects_can_be_left_out() {
    let all = sequence(20, |s, t_ms| {
        s.produced_by.objects = SlotState::SkippedCadence;
        if t_ms.is_multiple_of(1_000) {
            s.produced_by.objects = SlotState::Produced;
            if t_ms < 6_000 {
                s.objects = vec![detection("cell phone", 0.8)];
            }
        }
    });
    let kept: Vec<Signals> = all.iter().filter(|s| s.produced_by.objects == SlotState::Produced).cloned().collect();
    assert!(kept.len() < all.len());
    let cfg = Config::default();
    let objects = |signals: &[Signals]| -> Vec<Event> {
        fusion::replay(signals, &cfg, &Machine)
            .into_iter()
            .filter(|e| match e {
                Event::ViolationStarted(v) | Event::ViolationEnded(v) => v.kind == ViolationKind::ProhibitedObject,
                _ => false,
            })
            .collect()
    };
    assert_eq!(objects(&all).len(), 2);
    assert_eq!(objects(&all), objects(&kept));
}

#[test]
fn the_side_of_a_gaze_does_not_matter() {
    let looking = |sign: f32| {
        sequence(12, move |s, t_ms| {
            let yaw = if (2_000..8_000).contains(&t_ms) { 0.9 } else { 0.02 };
            if let Some(g) = s.gaze.as_mut() {
                g.yaw_rad = num(sign * yaw);
            }
        })
    };
    let cfg = Config::default();
    let left = fusion::replay(&looking(1.0), &cfg, &Machine);
    assert_eq!(starts(&left, ViolationKind::GazeOffScreen).len(), 1);
    assert_eq!(left, fusion::replay(&looking(-1.0), &cfg, &Machine));
}

#[test]
fn a_face_ends_never_seen_at_once_and_for_good() {
    let signals = sequence(40, |s, t_ms| {
        if !(12_000..13_000).contains(&t_ms) {
            s.faces.clear();
            s.head_pose = None;
            s.gaze = None;
            s.produced_by.pose = SlotState::NotConfigured;
            s.produced_by.gaze = SlotState::NotConfigured;
        }
    });
    let events = fusion::replay(&signals, &Config::default(), &Machine);
    assert_eq!(starts(&events, ViolationKind::NeverSeen).len(), 1);
    assert_eq!(starts(&events, ViolationKind::NoFace).len(), 1);
    let ended = events.iter().any(|e| match e {
        Event::ViolationEnded(v) => v.kind == ViolationKind::NeverSeen && v.t_end_ms == Some(12_000),
        _ => false,
    });
    assert!(ended, "{events:?}");
}
