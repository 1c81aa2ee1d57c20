use snn_core::{EmbeddedError, HyperEdge, Neuron, SnnRuntime, SpikeEvent, SCALE};

fn ev(neuron_id: u32, time: u64) -> SpikeEvent {
    SpikeEvent { neuron_id, time }
}

fn chain() -> SnnRuntime {
    let mut rt = SnnRuntime::new(32).unwrap();
    let n0 = rt.add_neuron(SCALE);
    let n1 = rt.add_neuron(SCALE);
    let n2 = rt.add_neuron(SCALE);
    rt.add_edge(vec![n0], vec![n1, n2], SCALE, 1).unwrap();
    rt
}

#[test]
fn plain_runtime_rejects_wheel_without_slots() {
    assert!(matches!(SnnRuntime::new(0), Err(EmbeddedError::InvalidInput(_))));
}

#[test]
fn plain_ids_are_indices() {
    let mut rt = SnnRuntime::new(4).unwrap();
    assert_eq!(rt.add_neuron(SCALE), 0);
    assert_eq!(rt.add_neuron(2 * SCALE), 1);
    assert_eq!(rt.neurons[1], Neuron { id: 1, membrane: 0, threshold: 2 * SCALE, refractory_until: 0 });
    assert_eq!(rt.add_edge(vec![0], vec![1], 100, 3), Ok(0));
    assert_eq!(rt.add_edge(vec![1, 0], vec![0], -5, 0), Ok(1));
    assert_eq!(rt.edges.len(), 2);
    let e: &HyperEdge = &rt.edges[1];
    assert_eq!((e.id, e.sources.clone(), e.targets.clone(), e.weight, e.delay), (1, vec![1, 0], vec![0], -5, 0));
}

#[test]
fn plain_edge_needs_sources_and_targets() {
    let mut rt = SnnRuntime::new(4).unwrap();
    rt.add_neuron(SCALE);
    let err = Err(EmbeddedError::InvalidInput("an edge needs a source and a target"));
    assert_eq!(rt.add_edge(vec![], vec![0], SCALE, 1), err);
    assert_eq!(rt.add_edge(vec![0], vec![], SCALE, 1), err);
    assert_eq!(rt.add_edge(vec![], vec![], SCALE, 1), err);
    assert_eq!(rt.edges.len(), 0);
}

#[test]
fn plain_single_chain_unit_delay() {
    let mut rt = chain();
    rt.queue.schedule(ev(0, 0));
    assert_eq!(rt.step_once(), vec![ev(0, 0)]);
    assert_eq!(rt.queue.current_time, 1);
    assert_eq!(rt.step_once(), vec![ev(1, 1), ev(2, 1)]);
    assert_eq!(rt.queue.current_time, 2);
    assert_eq!(rt.step_once(), vec![]);
}

#[test]
fn plain_refractory_suppression() {
    let mut rt = chain();
    rt.neurons[1].refractory_until = 10;
    rt.queue.schedule(ev(0, 0));
    assert_eq!(rt.step_once(), vec![ev(0, 0)]);
    assert_eq!(rt.neurons[1].membrane, 0);
    assert_eq!(rt.step_once(), vec![ev(2, 1)]);
}

#[test]
fn plain_scan_visits_edges_in_table_order() {
    let mut rt = SnnRuntime::new(8).unwrap();
    for _ in 0..3 {
        rt.add_neuron(SCALE);
    }
    // both edges start at neuron 0; the second edge lists it twice, which
    // does not make the scan deliver twice
    rt.add_edge(vec![0], vec![2], SCALE, 1).unwrap();
    rt.add_edge(vec![0, 0], vec![1], SCALE / 2, 1).unwrap();
    rt.add_edge(vec![1], vec![2], SCALE, 1).unwrap();
    rt.queue.schedule(ev(0, 0));
    assert_eq!(rt.step_once(), vec![ev(0, 0)]);
    assert_eq!(rt.neurons[1].membrane, SCALE / 2);
    assert_eq!(rt.neurons[2].membrane, 0);
    assert_eq!(rt.step_once(), vec![ev(2, 1)]);
}

#[test]
fn plain_targets_without_neuron_are_skipped() {
    let mut rt = SnnRuntime::new(8).unwrap();
    rt.add_neuron(SCALE);
    rt.add_neuron(SCALE);
    rt.add_edge(vec![0], vec![7, 1, 9], SCALE, 2).unwrap();
    rt.queue.schedule(ev(0, 0));
    assert_eq!(rt.step_once(), vec![ev(0, 0)]);
    assert_eq!(rt.step_once(), vec![]);
    assert_eq!(rt.step_once(), vec![ev(1, 2)]);
}

#[test]
fn plain_run_until_passes_the_tick() {
    let mut rt = chain();
    rt.queue.schedule(ev(0, 0));
    rt.run_until(5);
    assert_eq!(rt.queue.current_time, 6);
    // everything was delivered on the way
    assert_eq!(rt.step_once(), vec![]);
    // a tick that has passed takes no step
    rt.run_until(3);
    assert_eq!(rt.queue.current_time, 7);
}

#[test]
fn plain_run_ticks_takes_one_step_more() {
    let mut rt = chain();
    rt.run_ticks(0);
    assert_eq!(rt.queue.current_time, 1);
    rt.run_ticks(4);
    assert_eq!(rt.queue.current_time, 6);
}

#[test]
fn plain_each_step_advances_time_by_one() {
    let mut rt = chain();
    rt.queue.schedule(ev(0, 3));
    for n in 1..=40u64 {
        rt.step_once();
        assert_eq!(rt.queue.current_time, n);
    }
}

#[test]
fn plain_inputs_accumulate_over_edges() {
    let mut rt = SnnRuntime::new(8).unwrap();
    rt.add_neuron(SCALE);
    rt.add_neuron(SCALE);
    rt.add_edge(vec![0], vec![1], SCALE / 2, 1).unwrap();
    rt.add_edge(vec![0], vec![1], SCALE / 2, 1).unwrap();
    rt.queue.schedule(ev(0, 0));
    rt.step_once();
    // two halves reach the threshold
    assert_eq!(rt.step_once(), vec![ev(1, 1)]);
    assert_eq!(rt.neurons[1].membrane, 0);
}
