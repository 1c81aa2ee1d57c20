use snn_core::{Neuron, SCALE};

#[test]
fn new_neuron_is_at_rest() {
    let n = Neuron::new(4, SCALE);
    assert_eq!(n, Neuron { id: 4, membrane: 0, threshold: SCALE, refractory_until: 0 });
}

#[test]
fn inputs_accumulate_until_the_threshold() {
    let mut n = Neuron::new(0, SCALE);
    assert!(!n.inject(30000, 0));
    assert_eq!(n.membrane, 30000);
    assert!(!n.inject(30000, 1));
    assert_eq!(n.membrane, 60000);
    assert!(n.inject(5536, 2));
    assert_eq!(n.membrane, 0);
}

#[test]
fn reaching_the_threshold_exactly_fires() {
    let mut n = Neuron::new(0, SCALE);
    assert!(n.inject(SCALE, 0));
    assert_eq!(n.membrane, 0);
    let mut just_below = Neuron::new(0, SCALE);
    assert!(!just_below.inject(SCALE - 1, 0));
    assert_eq!(just_below.membrane, SCALE - 1);
}

#[test]
fn refractory_neuron_ignores_input() {
    let mut n = Neuron::new(1, SCALE);
    n.membrane = 123;
    n.refractory_until = 10;
    for t in 0..10u64 {
        assert!(!n.inject(10 * SCALE, t));
        assert_eq!(n, Neuron { id: 1, membrane: 123, threshold: SCALE, refractory_until: 10 });
    }
    // at the end of the period the neuron listens again
    assert!(n.inject(10 * SCALE, 10));
    assert_eq!(n.membrane, 0);
}

#[test]
fn firing_does_not_start_a_refractory_period() {
    let mut n = Neuron::new(0, SCALE);
    assert!(n.inject(SCALE, 5));
    assert_eq!(n.refractory_until, 0);
    assert!(n.inject(SCALE, 5));
}

#[test]
fn negative_membrane_is_kept() {
    let mut n = Neuron::new(0, SCALE);
    assert!(!n.inject(-3 * SCALE, 0));
    assert_eq!(n.membrane, -3 * SCALE);
    assert!(!n.inject(SCALE, 1));
    assert_eq!(n.membrane, -2 * SCALE);
}

#[test]
fn membrane_saturates() {
    let mut n = Neuron::new(0, i32::MAX);
    n.membrane = i32::MAX - 5;
    // saturates at the maximum, which is the threshold
    assert!(n.inject(100, 0));
    let mut low = Neuron::new(0, SCALE);
    low.membrane = i32::MIN + 5;
    assert!(!low.inject(-100, 0));
    assert_eq!(low.membrane, i32::MIN);
}

#[test]
fn zero_threshold_fires_on_any_nonnegative_membrane() {
    let mut n = Neuron::new(0, 0);
    assert!(n.inject(0, 0));
    assert!(!n.inject(-1, 0));
    assert_eq!(n.membrane, -1);
}
