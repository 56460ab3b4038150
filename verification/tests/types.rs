//! Signals, names, settings and the texts around them.

use vigilo_core::canvas::{Canvas, Colour, FaceMarks, KeypointMarks};
use vigilo_core::config::{severity_for, Bucket, SeverityRule};
use vigilo_core::config_store::settings_path;
use vigilo_core::decimal::{decimal_of, unsigned_of};
use vigilo_core::error::DetectError;
use vigilo_core::number::Number;
use vigilo_core::text::{pad, sort_order};
use vigilo_core::types::{
    DegradeReason, Event, Frame, GateReason, Severity, SignalCoverage, Signals, SlotState, ViolationKind,
};
use vigilo_core::{Config, SettingsPayload, SIGNALS_FORMAT_VERSION};

fn num(x: f64) -> Number {
    Number { bits: x.to_bits() }
}

#[test]
fn an_empty_object_list_is_only_a_measurement_when_the_slot_produced() {
    // Both frames below carry `objects: []`, and they mean opposite things.
    let looked_and_saw_nothing = Signals {
        produced_by: SignalCoverage { objects: SlotState::Produced, ..Default::default() },
        ..Default::default()
    };
    let never_ran = Signals {
        produced_by: SignalCoverage {
            objects: SlotState::SkippedCadence,
            ..Default::default()
        },
        ..Default::default()
    };
    assert_eq!(looked_and_saw_nothing.objects, never_ran.objects);
    assert!(looked_and_saw_nothing.produced_by.objects.produced());
    assert!(
        !never_ran.produced_by.objects.produced(),
        "a cadence skip must never read as evidence of absence"
    );
}

#[test]
fn nothing_is_configured_by_default() {
    let s = Signals::default();
    assert_eq!(s.produced_by.objects, SlotState::NotConfigured);
    assert!(!s.produced_by.objects.produced());
    assert_eq!(SIGNALS_FORMAT_VERSION, 2);
}

#[test]
fn the_empty_frame_is_empty() {
    let f = Frame::empty();
    assert!(f.is_empty());
    assert_eq!((f.seq, f.expected_len()), (0, 0));
    assert_eq!(f.clone().captured_at, f.captured_at);
}

#[test]
fn kind_names_parse_back() {
    let kinds = [
        ViolationKind::NoFace,
        ViolationKind::NeverSeen,
        ViolationKind::MultipleFaces,
        ViolationKind::HeadTurnedAway,
        ViolationKind::GazeOffScreen,
        ViolationKind::ProhibitedObject,
        ViolationKind::IdentityMismatch,
        ViolationKind::SignalLost,
    ];
    for kind in kinds {
        assert_eq!(ViolationKind::from_str(kind.as_str()), Ok(kind));
    }
    assert_eq!(ViolationKind::from_str("phone"), Ok(ViolationKind::ProhibitedObject));
    assert_eq!(ViolationKind::from_str("gaze"), Ok(ViolationKind::GazeOffScreen));
    assert_eq!(ViolationKind::from_str("nonsense").unwrap_err(), "`nonsense` is not a violation kind");
}

#[test]
fn states_and_reasons_have_names() {
    assert_eq!(SlotState::SkippedGated.as_str(), "gated");
    assert_eq!(SlotState::NotConfigured.as_str(), "absent");
    assert_eq!(GateReason::DegenerateBox.variant_str(), "DegenerateBox");
    assert_eq!(ViolationKind::NoFace.as_str(), "no_face");
}

#[test]
fn errors_say_which_part_they_are_about() {
    assert_eq!(DetectError::Config("x".into()).to_string(), "configuration: x");
    assert_eq!(DetectError::Camera("x".into()).to_string(), "camera: x");
    assert_eq!(DetectError::source("a", "x").to_string(), "source a: x");
    assert_eq!(DetectError::Model("x".into()).to_string(), "model: x");
}

#[test]
fn reasons_copy_whole() {
    for r in [
        DegradeReason::CameraLost("gone".into()),
        DegradeReason::ModelUnavailable { model: "m".into(), why: "w".into() },
        DegradeReason::InferenceFailing { model: "m".into(), why: "w".into() },
        DegradeReason::ExecutionProviderFallback { model: "m".into(), from: "a".into(), to: "b".into() },
    ] {
        assert_eq!(r.duplicate(), r);
        assert_ne!(Event::Degraded(r), Event::Recovered);
    }
}

#[test]
fn decimals_read_back() {
    for n in [0, 9, 10, 1234567890, u64::MAX] {
        assert_eq!(decimal_of(n), n.to_string());
        assert_eq!(unsigned_of(&decimal_of(n), u64::MAX), Some(n));
    }
    assert_eq!(unsigned_of("+12", 100), Some(12));
    assert_eq!(unsigned_of("0012", 100), Some(12));
    assert_eq!(unsigned_of("101", 100), None);
    for bad in ["", "+", "-1", "1 ", "1x", "99999999999999999999999"] {
        assert_eq!(unsigned_of(bad, u64::MAX), None, "{bad:?}");
    }
}

#[test]
fn texts_pad_and_sort() {
    assert_eq!(pad("ab", 4), "ab  ");
    assert_eq!(pad("abcdef", 4), "abcdef");
    assert_eq!(pad("é", 2), "é ");
    assert_eq!(sort_order(&vec!["b", "a", "", "b", "ab"]), vec![2, 1, 4, 0, 3]);
}

#[test]
fn settings_stand_in_their_directory() {
    assert_eq!(settings_path(""), "settings.toml");
    assert_eq!(settings_path("data"), std::path::Path::new("data").join("settings.toml").to_string_lossy());
    assert_eq!(settings_path("data/"), "data/settings.toml");
    let sep = std::path::MAIN_SEPARATOR;
    assert_eq!(settings_path("/var/lib/app"), format!("/var/lib/app{sep}settings.toml"));
    assert_eq!(settings_path("C:\\app"), format!("C:\\app{sep}settings.toml"));
    let verbatim = settings_path("\\\\?\\C:\\app");
    assert!(verbatim.starts_with("\\\\?\\") && verbatim.ends_with("settings.toml"));
}

#[test]
fn apply_to_updates_and_validates_config() {
    let mut cfg = Config::default();
    let mut payload = SettingsPayload::from_config(&cfg);
    payload.user.no_face_hold_ms = 7500;
    payload.user.pose_yaw_enter_deg = num(35.0);
    payload.user.pose_yaw_exit_deg = num(25.0);
    assert!(payload.apply_to(&mut cfg).is_ok(), "valid settings apply");

    assert_eq!(cfg.thresholds.face.no_face_hold_ms, 7500);
    assert_eq!(cfg.thresholds.pose.yaw_enter_deg, num(35.0));
    assert_eq!(cfg.thresholds.pose.yaw_exit_deg, num(25.0));

    // Invalid hysteresis: enter < exit fails validation
    payload.user.pose_yaw_enter_deg = num(20.0);
    payload.user.pose_yaw_exit_deg = num(30.0);
    assert!(payload.apply_to(&mut cfg).is_err());
    assert_eq!(cfg.thresholds.pose.yaw_enter_deg, num(35.0));
}

#[test]
fn own_settings_change_nothing() {
    let mut cfg = Config::default();
    cfg.thresholds.fusion.severity.push(SeverityRule { kind: "no_face".into(), severity: Severity::Low });
    let before = cfg.clone();
    assert!(SettingsPayload::from_config(&cfg).apply_to(&mut cfg).is_ok());
    assert_eq!(cfg, before);
}

#[test]
fn every_inverted_pair_is_refused_by_name() {
    let said = |change: fn(&mut Config)| {
        let mut cfg = Config::default();
        change(&mut cfg);
        cfg.validate().unwrap_err().to_string()
    };
    let high = "the exit threshold must not be above the enter threshold";
    assert_eq!(
        said(|c| c.thresholds.pose.yaw_exit_deg = num(90.0)),
        format!("configuration: thresholds.pose.yaw: {high}")
    );
    assert!(said(|c| c.thresholds.pose.pitch_exit_deg = num(90.0)).contains("pose.pitch"));
    assert!(said(|c| c.thresholds.gaze.yaw_exit_deg = num(90.0)).contains("gaze.yaw"));
    assert!(said(|c| c.thresholds.gaze.pitch_exit_deg = num(90.0)).contains("gaze.pitch"));
    assert!(said(|c| c.thresholds.objects.clear_score = num(f64::NAN)).contains("objects"));
    assert!(said(|c| {
        c.thresholds.objects.buckets.push(Bucket { name: "a".into(), classes: vec![] })
    })
    .contains("ascending order"));
    assert!(Config::default().validate().is_ok());
}

#[test]
fn the_defaults_are_the_documented_ones() {
    let cfg = Config::default();
    assert_eq!(cfg.thresholds.face.no_face_hold_ms, 2500);
    assert_eq!(cfg.cadence.face_hz, num(15.0));
    assert_eq!(cfg.thresholds.gaze.pitch_offset_deg, num(12.5));
    assert_eq!(cfg.thresholds.objects.enter_score, num(1.5));
    assert_eq!(cfg.thresholds.objects.clear_score, num(0.6));
    assert_eq!(cfg.thresholds.objects.score_half_life_ms, 3000);
    assert_eq!(cfg.thresholds.pose.ema_alpha, num(0.4));
    assert_eq!(cfg.thresholds.identity.cosine_enter, num(0.30));
    assert_eq!(cfg.thresholds.identity.cosine_exit, num(0.38));
    assert_eq!(cfg.thresholds.face.min_score, num(0.7));
    assert_eq!(cfg.cadence.identity_hz, num(0.2));
    assert!(cfg.capture.prefer_mjpeg);
    assert_eq!(cfg.runtime.intra_threads(true), 2);
    assert_eq!(cfg.runtime.intra_threads(false), 1);
}

#[test]
fn severities_fall_back_to_medium() {
    let rules = vec![
        SeverityRule { kind: "no_face".into(), severity: Severity::High },
        SeverityRule { kind: "no_face".into(), severity: Severity::Low },
    ];
    assert_eq!(severity_for(&rules, ViolationKind::NoFace), Severity::High);
    assert_eq!(severity_for(&rules, ViolationKind::SignalLost), Severity::Medium);
}

const RED: Colour = Colour { red: 255, green: 0, blue: 0 };

fn marked(samples: &[u8], width: usize) -> Vec<(usize, usize)> {
    let mut r = Vec::new();
    for (k, px) in samples.chunks(3).enumerate() {
        if px == [255, 0, 0] {
            r.push((k % width, k / width));
        } else {
            assert_eq!(px, [0, 0, 0], "an unmarked pixel keeps its colour");
        }
    }
    r
}

#[test]
fn a_rectangle_is_two_pixels_thick_and_clipped() {
    let mut canvas = Canvas::new(8, 6, vec![0; 8 * 6 * 3]).unwrap();
    canvas.draw_rect(1, 1, 20, 4, RED);
    let mut expected = Vec::new();
    for y in 0..6usize {
        for x in 0..8usize {
            let level = (y == 1 || y == 2 || y == 3 || y == 4) && x >= 1;
            let upright = (x == 1 || x == 2) && (1..=4).contains(&y);
            if level || upright {
                expected.push((x, y));
            }
        }
    }
    assert_eq!(marked(&canvas.into_samples(), 8), expected);
}

#[test]
fn a_cross_reaches_three_pixels_each_way() {
    let mut canvas = Canvas::new(9, 9, vec![0; 9 * 9 * 3]).unwrap();
    canvas.draw_cross(4, 4, RED);
    let points = marked(&canvas.into_samples(), 9);
    assert_eq!(points.len(), 13);
    for (x, y) in points {
        assert!((x == 4 && (1..=7).contains(&y)) || (y == 4 && (1..=7).contains(&x)));
    }
}

#[test]
fn points_off_the_picture_mark_nothing() {
    let mut canvas = Canvas::new(2, 2, vec![0; 12]).unwrap();
    canvas.put(-1, 0, RED);
    canvas.put(0, 2, RED);
    canvas.put(1, 0, RED);
    assert_eq!(canvas.into_samples(), vec![0, 0, 0, 255, 0, 0, 0, 0, 0, 0, 0, 0]);
}

#[test]
fn a_buffer_too_short_for_its_picture_is_refused() {
    assert_eq!(
        Canvas::new(2, 2, vec![0; 11]).err(),
        Some(DetectError::Config("frame buffer did not match its dimensions".into()))
    );
    assert!(Canvas::new(2, 2, vec![0; 13]).is_ok());
}

#[test]
fn a_face_is_marked_in_three_colours() {
    let mut canvas = Canvas::new(40, 40, vec![0; 40 * 40 * 3]).unwrap();
    let face = FaceMarks {
        top_left: (2, 2),
        bottom_right: (37, 37),
        keypoints: Some(KeypointMarks {
            right_eye: (10, 10),
            left_eye: (28, 10),
            nose: (19, 19),
            right_mouth: (12, 28),
            left_mouth: (26, 28),
        }),
    };
    assert!(face.is_drawable());
    canvas.mark_face(&face);
    let samples = canvas.into_samples();
    let at = |x: usize, y: usize| {
        let i = (y * 40 + x) * 3;
        Colour { red: samples[i], green: samples[i + 1], blue: samples[i + 2] }
    };
    assert_eq!(at(2, 20), Colour::green());
    assert_eq!(at(10, 10), Colour::green());
    assert_eq!(at(31, 10), Colour::green());
    assert_eq!(at(19, 16), Colour::yellow());
    assert_eq!(at(12, 31), Colour::red());
    assert_eq!(at(26, 28), Colour::red());
    assert_eq!(at(19, 30), Colour { red: 0, green: 0, blue: 0 });
    assert!(!FaceMarks { top_left: (i64::MAX, 0), ..face }.is_drawable());
}
