use snn_core::{PlasticityRule, QuantizedStdp, SCALE};

const ONE: i32 = 1 << 16;

fn fx_from_f32(x: f32) -> i32 {
    (x * (ONE as f32)) as i32
}

fn fx_to_f32(x: i32) -> f32 {
    (x as f32) / (ONE as f32)
}

fn stdp(a_plus: f32, a_minus: f32, alpha_pre: f32, alpha_post: f32, w_min: f32, w_max: f32) -> QuantizedStdp {
    QuantizedStdp::new(
        fx_from_f32(a_plus),
        fx_from_f32(a_minus),
        fx_from_f32(alpha_pre),
        fx_from_f32(alpha_post),
        fx_from_f32(w_min),
        fx_from_f32(w_max),
    )
    .unwrap()
}

#[test]
fn test_default_params_and_basic_update() {
    let mut stdp = QuantizedStdp::with_defaults();
    let mut w = fx_from_f32(0.5);

    stdp.on_pre_spike(1, 0);
    stdp.decay();
    stdp.on_post_spike(2, 1);

    stdp.apply_edge(1, 2, &mut w);
    assert!(w >= fx_from_f32(0.0) && w <= fx_from_f32(1.0));
}

#[test]
fn test_traces_increase_and_decay() {
    let mut stdp = QuantizedStdp::with_defaults();

    stdp.on_pre_spike(5, 0);
    stdp.on_post_spike(5, 0);

    let (pre0, post0) = stdp.traces(5);
    assert!(pre0 >= ONE && post0 >= ONE);

    stdp.decay();
    let (pre1, post1) = stdp.traces(5);
    assert!(pre1 <= pre0 && post1 <= post0);
}

#[test]
fn test_clamp_bounds() {
    let mut stdp = stdp(1.0, 0.0, 1.0, 1.0, 0.25, 0.75);
    let mut w = fx_from_f32(0.7);
    stdp.on_pre_spike(0, 0);
    stdp.apply_edge(0, 1, &mut w);
    assert!((fx_to_f32(w) - 0.75).abs() < 1e-3);
}

#[test]
fn defaults_are_the_customary_parameters() {
    // with_defaults behaves as the rule built from 0.01, 0.012, 0.96, 0.96, 0.0, 1.0
    let mut a = QuantizedStdp::with_defaults();
    let mut b = stdp(0.01, 0.012, 0.96, 0.96, 0.0, 1.0);
    for rule in [&mut a, &mut b] {
        rule.on_pre_spike(3, 0);
        rule.on_post_spike(4, 0);
        rule.decay();
    }
    assert_eq!(a.traces(3), b.traces(3));
    assert_eq!(a.traces(4), b.traces(4));
    let mut wa = 30000;
    let mut wb = 30000;
    a.apply_edge(3, 4, &mut wa);
    b.apply_edge(3, 4, &mut wb);
    assert_eq!(wa, wb);
    assert_eq!(fx_from_f32(0.01), 655);
    assert_eq!(fx_from_f32(0.012), 786);
    assert_eq!(fx_from_f32(0.96), 62914);
}

#[test]
fn inverted_bounds_are_rejected() {
    let r = QuantizedStdp::new(655, 786, 62914, 62914, 10, 9);
    assert!(matches!(r, Err(snn_core::EmbeddedError::InvalidConfiguration)));
    assert!(QuantizedStdp::new(655, 786, 62914, 62914, 9, 9).is_ok());
}

#[test]
fn spike_raises_trace_by_one() {
    let mut rule = QuantizedStdp::with_defaults();
    assert_eq!(rule.traces(7), (0, 0));
    rule.on_pre_spike(7, 0);
    assert_eq!(rule.traces(7), (SCALE, 0));
    rule.on_pre_spike(7, 1);
    assert_eq!(rule.traces(7), (2 * SCALE, 0));
    rule.on_post_spike(7, 1);
    assert_eq!(rule.traces(7), (2 * SCALE, SCALE));
    // rows of other neurons read as zero
    assert_eq!(rule.traces(6), (0, 0));
    assert_eq!(rule.traces(1000), (0, 0));
}

#[test]
fn trace_saturates() {
    let mut rule = stdp(0.0, 0.0, 1.0, 1.0, 0.0, 1.0);
    for _ in 0..40000 {
        rule.on_pre_spike(0, 0);
    }
    assert_eq!(rule.traces(0), (i32::MAX, 0));
}

#[test]
fn decay_scales_by_alpha() {
    let mut rule = QuantizedStdp::with_defaults();
    rule.on_pre_spike(0, 0);
    rule.on_post_spike(1, 0);
    rule.decay();
    // 65536 * 62914 >> 16 = 62914
    assert_eq!(rule.traces(0), (62914, 0));
    assert_eq!(rule.traces(1), (0, 62914));
    rule.decay();
    // 62914 * 62914 >> 16 = 60396
    assert_eq!(rule.traces(0), (60396, 0));
}

#[test]
fn decay_of_zero_traces_changes_nothing() {
    let mut rule = QuantizedStdp::with_defaults();
    let mut w = 100;
    rule.apply_edge(2, 3, &mut w); // creates rows, all zero
    rule.decay();
    for id in 0..5 {
        assert_eq!(rule.traces(id), (0, 0));
    }
}

#[test]
fn apply_edge_exact_value() {
    // a_plus = 0.5, a_minus = 0.25, no decay, bounds [-2, 2]
    let mut rule = stdp(0.5, 0.25, 1.0, 1.0, -2.0, 2.0);
    rule.on_pre_spike(0, 0); // pre trace of 0 is 1.0
    rule.on_post_spike(1, 0); // post trace of 1 is 1.0
    let mut w = fx_from_f32(0.5);
    rule.apply_edge(0, 1, &mut w);
    // 0.5 + 0.5 * 1.0 - 0.25 * 1.0 = 0.75
    assert_eq!(w, 49152);
}

#[test]
fn apply_edge_clamps_from_below() {
    let mut rule = stdp(0.0, 1.0, 1.0, 1.0, 0.25, 0.75);
    rule.on_post_spike(1, 0);
    let mut w = fx_from_f32(0.5);
    rule.apply_edge(0, 1, &mut w);
    assert_eq!(w, fx_from_f32(0.25));
}

#[test]
fn weight_stays_in_bounds_after_any_update() {
    let mut rule = stdp(1.0, 1.0, 0.5, 0.5, -0.5, 0.5);
    let lo = fx_from_f32(-0.5);
    let hi = fx_from_f32(0.5);
    for start in [i32::MIN, -70000, -1, 0, 1, 70000, i32::MAX] {
        for step in 0..6u32 {
            rule.on_pre_spike(step % 3, 0);
            rule.on_post_spike((step + 1) % 3, 0);
            let mut w = start;
            rule.apply_edge(step % 3, (step + 1) % 3, &mut w);
            assert!(lo <= w && w <= hi);
            rule.decay();
        }
    }
}

#[test]
fn traces_stay_nonnegative() {
    let mut rule = QuantizedStdp::with_defaults();
    for step in 0..200u32 {
        rule.on_pre_spike(step % 4, step as u64);
        if step % 3 == 0 {
            rule.on_post_spike(step % 5, step as u64);
        }
        rule.decay();
        for id in 0..6 {
            let (pre, post) = rule.traces(id);
            assert!(pre >= 0 && post >= 0);
        }
    }
}
