//! What is known about models without running them, and thinning detections.

use std::sync::Arc;
use std::time::Instant;

use vigilo_core::error::DetectError;
use vigilo_core::models::identity::{check_embedding, check_frame, missing_output, to_planes, EMBEDDING_DIM};
use vigilo_core::models::{
    bench_runs, element_count, is_large, nms, pin_shape, run_counts, Candidate, ModelInfo, Overlap, StageTimings,
    TensorSpec,
};
use vigilo_core::number::Number;
use vigilo_core::types::{BBox, Frame};

fn num(x: f32) -> Number {
    Number { bits: (x as f64).to_bits() }
}

fn of(n: Number) -> f32 {
    f64::from_bits(n.bits) as f32
}

/// Intersection over union on the machine's own numbers.
struct Machine;

impl Overlap for Machine {
    fn iou(&self, a: BBox, b: BBox) -> Number {
        let area = |r: &BBox| (of(r.w) * of(r.h)).max(0.0);
        let x1 = of(a.x).max(of(b.x));
        let y1 = of(a.y).max(of(b.y));
        let x2 = (of(a.x) + of(a.w)).min(of(b.x) + of(b.w));
        let y2 = (of(a.y) + of(a.h)).min(of(b.y) + of(b.h));
        let inter = (x2 - x1).max(0.0) * (y2 - y1).max(0.0);
        let union = area(&a) + area(&b) - inter;
        num(if union <= 0.0 { 0.0 } else { inter / union })
    }
}

#[test]
fn dynamic_axes_are_reported_as_such() {
    let dynamic =
        TensorSpec { name: "input".into(), dtype: "Float32".into(), shape: vec![1, 3, -1, -1] };
    assert!(!dynamic.is_static());
    assert!(dynamic.to_string().contains("[1, 3, ?, ?]"));

    let fixed = TensorSpec {
        name: "input".into(),
        dtype: "Float32".into(),
        shape: vec![1, 3, 320, 320],
    };
    assert!(fixed.is_static());
}

#[test]
fn a_rankless_tensor_is_not_static() {
    let spec = TensorSpec { name: "x".into(), dtype: "Float32".into(), shape: vec![] };
    assert!(!spec.is_static());
}

#[test]
fn a_tensor_reads_as_name_type_and_shape() {
    let spec = TensorSpec { name: "input".into(), dtype: "Float32".into(), shape: vec![1, 3, -1, -1] };
    assert_eq!(spec.to_string(), format!("{:<24} {:<8} [1, 3, ?, ?]", "input", "Float32"));
}

#[test]
fn one_dynamic_tensor_makes_a_model_dynamic() {
    let fixed = TensorSpec { name: "a".into(), dtype: "Float32".into(), shape: vec![1, 3] };
    let open = TensorSpec { name: "b".into(), dtype: "Float32".into(), shape: vec![-1, 3] };
    let info = |inputs: Vec<TensorSpec>, outputs: Vec<TensorSpec>| ModelInfo {
        path: "m.onnx".into(),
        size_bytes: 1,
        inputs,
        outputs,
    };
    assert!(!info(vec![fixed.clone()], vec![fixed.clone()]).has_dynamic_axes());
    assert!(info(vec![open.clone()], vec![fixed.clone()]).has_dynamic_axes());
    assert!(info(vec![fixed], vec![open]).has_dynamic_axes());
}

#[test]
fn eight_megabytes_is_where_large_begins() {
    assert!(!is_large(8 * 1024 * 1024));
    assert!(is_large(8 * 1024 * 1024 + 1));
}

#[test]
fn dynamic_axes_are_pinned_to_one() {
    assert_eq!(pin_shape(&vec![-1, 3, 0, 224]), vec![1, 3, 1, 224]);
    assert_eq!(element_count(&vec![1, 3, 224, 224]), 150_528);
    assert_eq!(element_count(&vec![]), 1);
}

#[test]
fn warm_up_runs_do_not_count() {
    assert_eq!(bench_runs(50, 3), 53);
    assert_eq!((0..5).filter(|i| run_counts(*i, 3)).count(), 2);
}

#[test]
fn stage_timings_add_up() {
    let t = StageTimings { preprocess_us: 100, inference_us: 2_000, postprocess_us: 30 };
    assert_eq!(t.total_us(), 2_130);
}

fn candidate(class: u32, x: f32, score: f32) -> Candidate {
    Candidate { class, bbox: BBox { x: num(x), y: num(0.0), w: num(10.0), h: num(10.0) }, score: num(score) }
}

#[test]
fn the_best_of_an_overlapping_group_survives() {
    let items = vec![candidate(1, 0.0, 0.6), candidate(1, 1.0, 0.9), candidate(1, 50.0, 0.3)];
    assert_eq!(nms(&items, num(0.45), 100, &Machine), vec![1, 2]);
}

#[test]
fn another_class_is_never_suppressed() {
    let items = vec![candidate(1, 0.0, 0.9), candidate(2, 0.0, 0.8)];
    assert_eq!(nms(&items, num(0.45), 100, &Machine), vec![0, 1]);
}

#[test]
fn only_the_best_few_are_looked_at() {
    let items = vec![candidate(1, 0.0, 0.1), candidate(1, 50.0, 0.9), candidate(1, 100.0, 0.5)];
    assert_eq!(nms(&items, num(0.45), 2, &Machine), vec![1, 2]);
    assert!(nms(&items, num(0.45), 0, &Machine).is_empty());
    assert!(nms(&vec![], num(0.45), 10, &Machine).is_empty());
}

#[test]
fn equal_scores_keep_their_order() {
    let items = vec![candidate(1, 50.0, 0.5), candidate(1, 0.0, 0.5), candidate(1, 100.0, 0.5)];
    assert_eq!(nms(&items, num(0.45), 100, &Machine), vec![0, 1, 2]);
}

fn frame(width: u32, height: u32, bytes: usize) -> Frame {
    Frame { data: Arc::new(vec![0; bytes]), width, height, seq: 9, captured_at: Instant::now() }
}

#[test]
fn a_frame_has_to_be_as_long_as_its_size_asks_for() {
    assert_eq!(check_frame(&frame(4, 2, 24)), Ok(()));
    assert_eq!(
        check_frame(&frame(4, 2, 23)),
        Err(DetectError::Config("frame 9 is 23 bytes, expected 24".into()))
    );
}

#[test]
fn pixels_are_laid_out_in_planes() {
    assert_eq!(to_planes(&[1, 2, 3, 4, 5, 6], 2), vec![1, 4, 2, 5, 3, 6]);
    assert!(to_planes(&[], 0).is_empty());
}

#[test]
fn an_embedding_has_a_fixed_width() {
    assert_eq!(check_embedding(EMBEDDING_DIM), Ok(()));
    assert_eq!(
        check_embedding(128),
        Err(DetectError::Config("arcface returned 128 values, expected 512".into()))
    );
    assert_eq!(missing_output(), DetectError::Config("arcface produced no `516` output".into()));
}
