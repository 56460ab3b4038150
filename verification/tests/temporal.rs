//! The temporal primitives: smoothing, latching, holding and decaying.

use vigilo_core::fusion::temporal::{DecayingScore, Edge, Ema, HoldTimer, Hysteresis};
use vigilo_core::number::{Arithmetic, Number};

/// Arithmetic on the machine's own floating-point numbers.
struct Machine;

fn of(n: Number) -> f64 {
    f64::from_bits(n.bits)
}

fn num(x: f64) -> Number {
    Number { bits: x.to_bits() }
}

impl Arithmetic for Machine {
    fn blend(&self, alpha: Number, sample: Number, previous: Number) -> Number {
        num(of(alpha) * of(sample) + (1.0 - of(alpha)) * of(previous))
    }

    fn ramp(&self, value: Number, enter: Number) -> Number {
        let r = (((of(value) - of(enter)) / of(enter)) as f32).clamp(0.0, 1.0);
        num(r as f64)
    }

    fn decay(&self, score: Number, elapsed_ms: u64, half_life_ms: u64) -> Number {
        num(of(score) * 0.5f64.powf(elapsed_ms as f64 / half_life_ms as f64))
    }

    fn sum(&self, a: Number, b: Number) -> Number {
        num(of(a) + of(b))
    }

    fn difference(&self, a: Number, b: Number) -> Number {
        num(of(a) - of(b))
    }

    fn degrees(&self, radians: Number) -> Number {
        num((of(radians) as f32).to_degrees() as f64)
    }

    fn shown(&self, value: Number, places: u32) -> String {
        format!("{:.*}", places as usize, of(value))
    }
}

#[test]
fn ema_smooths_toward_a_step() {
    let mut ema = Ema::new(num(0.5), 1000);
    assert_eq!(of(ema.update(num(10.0), 0, &Machine)), 10.0, "the first sample is adopted whole");
    assert_eq!(of(ema.update(num(20.0), 100, &Machine)), 15.0);
    assert_eq!(of(ema.update(num(20.0), 200, &Machine)), 17.5);
    assert!(of(ema.get().unwrap()) < 20.0, "smoothing lags, by design");
}

#[test]
fn ema_does_not_interpolate_across_a_long_gap() {
    let mut ema = Ema::new(num(0.5), 500);
    ema.update(num(10.0), 0, &Machine);
    let after_gap = of(ema.update(num(30.0), 5_000, &Machine));
    assert_eq!(after_gap, 30.0, "a 5 s gap must reset the filter");
}

#[test]
fn ema_blends_across_a_short_gap() {
    let mut ema = Ema::new(num(0.5), 500);
    ema.update(num(10.0), 0, &Machine);
    assert_eq!(of(ema.update(num(30.0), 67, &Machine)), 20.0);
}

#[test]
fn a_miss_does_not_restart_the_gap_clock() {
    let mut ema = Ema::new(num(0.5), 500);
    ema.update(num(10.0), 0, &Machine);
    for t in [100, 200, 300, 400, 500, 600] {
        ema.miss(t);
    }
    assert_eq!(of(ema.update(num(30.0), 700, &Machine)), 30.0, "700 ms of misses is still a 700 ms gap");
}

#[test]
fn hysteresis_crosses_once_on_a_monotonic_ramp() {
    let mut h = Hysteresis::new(num(25.0), num(18.0));
    let mut transitions = 0;
    let mut last = false;
    for i in 0..100 {
        let now = h.update(num(i as f64 * 0.5));
        if now != last {
            transitions += 1;
        }
        last = now;
    }
    assert_eq!(transitions, 1, "a monotonic ramp must cross exactly once");
}

#[test]
fn hysteresis_does_not_flap_on_the_boundary() {
    let mut h = Hysteresis::new(num(25.0), num(18.0));
    assert!(h.update(num(26.0)), "crosses in");
    for v in [24.9, 25.1, 24.0, 25.5, 19.0, 24.0] {
        assert!(h.update(num(v)), "still latched at {v}, above the exit threshold");
    }
    assert!(!h.update(num(17.9)), "only releases below the exit threshold");
}

#[test]
fn hysteresis_intensity_scales_past_the_threshold() {
    let h = Hysteresis::new(num(20.0), num(14.0));
    assert_eq!(of(h.intensity(num(10.0), &Machine)), 0.0, "below the threshold contributes nothing");
    assert_eq!(of(h.intensity(num(20.0), &Machine)), 0.0, "exactly at the threshold is the bottom of the ramp");
    assert!((of(h.intensity(num(30.0), &Machine)) - 0.5).abs() < 1e-6);
    assert_eq!(of(h.intensity(num(60.0), &Machine)), 1.0, "saturates rather than growing without bound");
}

#[test]
fn hold_timer_waits_for_the_hold_then_fires_once() {
    let mut t = HoldTimer::new(2500, 1000);
    assert_eq!(t.update(true, 0), Edge::Steady);
    assert_eq!(t.update(true, 2499), Edge::Steady, "not yet");
    assert_eq!(t.update(true, 2500), Edge::Rose);
    for ms in [2600, 3000, 9000] {
        assert_eq!(t.update(true, ms), Edge::Steady, "must not re-emit every frame");
    }
}

#[test]
fn hold_timer_needs_the_clear_hold_before_releasing() {
    let mut t = HoldTimer::new(1000, 1000);
    t.update(true, 0);
    assert_eq!(t.update(true, 1000), Edge::Rose);
    assert_eq!(t.update(false, 1100), Edge::Steady, "a momentary reappearance is not a clear");
    assert_eq!(t.update(true, 1200), Edge::Steady, "and it does not re-fire either");
    assert_eq!(t.update(false, 1300), Edge::Steady);
    assert_eq!(t.update(false, 2300), Edge::Fell);
}

#[test]
fn a_flicker_mid_absence_does_not_produce_two_violations() {
    let mut t = HoldTimer::new(1000, 1000);
    let mut rises = 0;
    let mut falls = 0;
    for step in 0..100u64 {
        let ms = step * 100;
        // Absent throughout, except one lone frame at 3 s.
        let present = ms == 3000;
        match t.update(!present, ms) {
            Edge::Rose => rises += 1,
            Edge::Fell => falls += 1,
            Edge::Steady => {}
        }
    }
    assert_eq!((rises, falls), (1, 0), "one absence, still ongoing");
}

#[test]
fn decaying_score_halves_over_one_half_life() {
    let mut s = DecayingScore::new(3000);
    s.add(num(1.0), 0, &Machine);
    assert!((of(s.decay_to(3000, &Machine)) - 0.5).abs() < 1e-9);
    assert!((of(s.decay_to(6000, &Machine)) - 0.25).abs() < 1e-9);
}

#[test]
fn peaky_but_persistent_evidence_accumulates_past_the_bar() {
    let mut s = DecayingScore::new(3000);
    let samples = [0.62, 0.30, 0.71, 0.28, 0.80, 0.33, 0.77];
    let mut peak: f64 = 0.0;
    for (i, v) in samples.iter().enumerate() {
        peak = peak.max(of(s.add(num(*v), i as u64 * 1000, &Machine)));
    }
    assert!(peak >= 1.5, "peaky-but-persistent evidence must fire; peaked at {peak:.2}");
}

#[test]
fn one_noisy_sample_decays_without_firing() {
    let mut s = DecayingScore::new(3000);
    s.add(num(0.9), 0, &Machine);
    let mut peak: f64 = of(s.score());
    for step in 1..30 {
        peak = peak.max(of(s.decay_to(step * 1000, &Machine)));
    }
    assert!(peak < 1.5, "a lone sample must not reach the bar; peaked at {peak:.2}");
    assert!(of(s.score()) < 0.01, "and it must fade to nothing");
}

#[test]
fn resets_forget_everything() {
    let mut ema = Ema::new(num(0.5), 1000);
    ema.update(num(10.0), 0, &Machine);
    ema.reset();
    assert_eq!(ema.get(), None);

    let mut h = Hysteresis::new(num(25.0), num(18.0));
    h.update(num(30.0));
    assert!(h.active());
    h.reset();
    assert!(!h.active());

    let mut s = DecayingScore::new(3000);
    s.add(num(1.0), 0, &Machine);
    s.reset();
    assert_eq!(of(s.score()), 0.0);
}

#[test]
fn a_preview_changes_nothing_and_adopting_it_is_the_update() {
    let mut a = Ema::new(num(0.25), 1000);
    let mut b = Ema::new(num(0.25), 1000);
    for (v, t) in [(8.0, 0), (16.0, 100), (4.0, 5000)] {
        let next = a.preview(num(v), t, &Machine);
        assert_eq!(next, a.preview(num(v), t, &Machine));
        a.adopt(next, t);
        assert_eq!(b.update(num(v), t, &Machine), next);
        assert_eq!(a.get(), b.get());
    }

    let mut p = DecayingScore::new(3000);
    let mut q = DecayingScore::new(3000);
    for (v, t) in [(1.0, 0), (0.5, 1500), (0.25, 1500)] {
        let next = p.preview_add(num(v), t, &Machine);
        p.adopt(next, t);
        assert_eq!(q.add(num(v), t, &Machine), next);
        assert_eq!(p.score(), q.score());
    }
}

#[test]
fn a_score_without_a_half_life_never_decays() {
    let mut s = DecayingScore::new(0);
    s.add(num(1.0), 0, &Machine);
    assert_eq!(of(s.decay_to(1_000_000, &Machine)), 1.0);
}

#[test]
fn time_running_backwards_neither_decays_nor_fires() {
    let mut s = DecayingScore::new(3000);
    s.add(num(1.0), 5000, &Machine);
    assert_eq!(of(s.decay_to(1000, &Machine)), 1.0);

    let mut t = HoldTimer::new(1000, 1000);
    t.update(true, 5000);
    assert_eq!(t.update(true, 100), Edge::Steady);
}

#[test]
fn forcing_a_timer_clear_reports_the_fall_once() {
    let mut t = HoldTimer::new(100, 100);
    t.update(true, 0);
    assert_eq!(t.update(true, 100), Edge::Rose);
    assert!(t.fired());
    assert_eq!(t.force_clear(), Edge::Fell);
    assert_eq!(t.force_clear(), Edge::Steady);
    assert!(!t.fired());
}

#[test]
fn rises_and_falls_take_turns() {
    let mut t = HoldTimer::new(200, 200);
    let mut edges = Vec::new();
    for step in 0..60u64 {
        let on = (step / 10) % 2 == 0;
        match t.update(on, step * 100) {
            Edge::Steady => {}
            edge => edges.push(edge),
        }
    }
    assert_eq!(
        edges,
        vec![Edge::Rose, Edge::Fell, Edge::Rose, Edge::Fell, Edge::Rose, Edge::Fell]
    );
}

#[test]
fn forced_clears_take_their_turn_too() {
    let mut t = HoldTimer::new(200, 200);
    let mut edges = Vec::new();
    for step in 0..40u64 {
        let edge = if step % 10 == 7 { t.force_clear() } else { t.update(true, step * 100) };
        if edge != Edge::Steady {
            edges.push(edge);
        }
    }
    assert_eq!(edges.len(), 8);
    assert_eq!(edges[0], Edge::Rose);
    assert!(edges.windows(2).all(|w| w[0] != w[1]), "{edges:?}");
}

#[test]
fn a_short_condition_never_rises() {
    let mut t = HoldTimer::new(1000, 1000);
    for step in 0..200u64 {
        // On for 400 ms, off for 100 ms, again and again.
        assert_eq!(t.update(step % 5 != 0, step * 100), Edge::Steady);
    }
}

#[test]
fn numbers_compare_as_their_values_do() {
    let values = [f64::NEG_INFINITY, -2.5, -1.0, -0.0, 0.0, 1e-300, 0.5, 1.0, 700.25, f64::INFINITY, f64::NAN];
    for a in values {
        for b in values {
            assert_eq!(num(a).below(num(b)), a < b, "{a} < {b}");
            assert_eq!(num(a).at_least(num(b)), a >= b, "{a} >= {b}");
            if !a.is_nan() || !b.is_nan() {
                assert_eq!(of(num(a).max(num(b))), a.max(b), "max({a}, {b})");
            }
        }
        if !a.is_nan() {
            assert_eq!(of(num(a).magnitude()), a.abs());
        }
    }
    assert_eq!(of(Number::zero()), 0.0);
    assert_eq!(of(Number::one()), 1.0);
}
