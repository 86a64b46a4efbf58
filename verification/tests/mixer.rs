//! Strips, latencies and channel counts.

use mxl_bridge::console::mixer::{
    channels_compatible, compute_compensation, is_muted, is_on, is_soloed, mix_plan,
    LatencyCompensation, MixPlan, PickoffPoint, Send,
};

fn db_to_linear(db: f32) -> f32 {
    10f32.powf(db / 20.0)
}

#[test]
fn compute_compensation_examples() {
    assert_eq!(compute_compensation(&[0, 5, 3]), vec![5, 0, 2]);
    assert_eq!(compute_compensation(&[0, 0, 0]), vec![0, 0, 0]);
    assert_eq!(compute_compensation(&[7]), vec![0]);
    assert_eq!(compute_compensation(&[]), Vec::<usize>::new());
}

#[test]
fn latency_compensation_starts_at_zero_and_is_exact_passthrough() {
    let mut comp: LatencyCompensation<f32> = LatencyCompensation::new();
    assert_eq!(comp.samples(), 0);
    let mut samples = vec![vec![1.0, -0.5, 0.25]];
    let original = samples.clone();
    comp.process(&mut samples);
    assert_eq!(samples, original);
}

#[test]
fn latency_compensation_delays_by_exactly_n_samples() {
    let mut comp: LatencyCompensation<f32> = LatencyCompensation::new();
    comp.resize(1, 5, 0.0);
    assert_eq!(comp.samples(), 5);
    let mut samples = vec![vec![1.0, 0.0, 0.0, 0.0, 0.0, 0.0, 0.0, 0.0]];
    comp.process(&mut samples);
    let expected = {
        let mut v = vec![0.0; 8];
        v[5] = 1.0;
        v
    };
    assert_eq!(samples[0], expected);
}

#[test]
fn latency_compensation_state_survives_across_periods() {
    let mut comp: LatencyCompensation<f32> = LatencyCompensation::new();
    comp.resize(1, 5, 0.0);
    let mut period1 = vec![vec![1.0, 0.0, 0.0]];
    comp.process(&mut period1);
    assert_eq!(period1[0], vec![0.0, 0.0, 0.0], "impulse hasn't emerged yet within period 1");
    let mut period2 = vec![vec![0.0, 0.0, 0.0]];
    comp.process(&mut period2);
    assert_eq!(
        period2[0],
        vec![0.0, 0.0, 1.0],
        "impulse emerges exactly 5 samples after it was written, spanning the period boundary"
    );
}

#[test]
fn every_channel_has_its_own_delay_line() {
    let mut comp: LatencyCompensation<i32> = LatencyCompensation::default();
    comp.resize(2, 2, 0);
    let mut block = vec![vec![1, 2, 3, 4], vec![5, 6, 7, 8], vec![9, 9, 9, 9]];
    comp.process(&mut block);
    assert_eq!(block, vec![vec![0, 0, 1, 2], vec![0, 0, 5, 6], vec![9, 9, 9, 9]]);
}

#[test]
fn compensation_gives_every_strip_the_same_total() {
    let own = [3usize, 11, 0, 11];
    let comp = compute_compensation(&own);
    assert!(own.iter().zip(&comp).all(|(a, b)| a + b == 11));
}

#[test]
fn send_defaults_are_unity_bus_assign_equivalent() {
    let send = Send { bus_id: 0, pickoff: PickoffPoint::PostFader, on: true, level_db: 0.0f32.to_bits() };
    assert!(is_on(&send.on));
    assert_eq!(db_to_linear(f32::from_bits(send.level_db)), 1.0);
    assert_eq!(send.pickoff, PickoffPoint::PostFader);
}

#[test]
fn channels_go_together_where_mixing_does_something() {
    assert_eq!(mix_plan(2, 2), MixPlan::Direct);
    assert_eq!(mix_plan(1, 6), MixPlan::Spread);
    assert_eq!(mix_plan(6, 1), MixPlan::Average);
    assert_eq!(mix_plan(3, 2), MixPlan::Nothing);
    for a in 1..8 {
        for b in 1..8 {
            assert_eq!(channels_compatible(a, b), mix_plan(a, b) != MixPlan::Nothing);
        }
    }
    assert!(is_muted(&true) && !is_soloed(&false));
}
