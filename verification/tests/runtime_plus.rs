use snn_core::{
    EmbeddedError, HyperEdge, Neuron, QuantizedStdp, SnnRuntime, SnnRuntimePlus, SpikeEvent, StepBudgets, SCALE,
};

fn ev(neuron_id: u32, time: u64) -> SpikeEvent {
    SpikeEvent { neuron_id, time }
}

fn no_budgets() -> StepBudgets {
    StepBudgets { max_edge_visits: None, max_spikes_scheduled: None }
}

fn chain() -> SnnRuntimePlus {
    let mut rt = SnnRuntimePlus::new(32).unwrap();
    let n0 = rt.add_neuron(SCALE);
    let n1 = rt.add_neuron(SCALE);
    let n2 = rt.add_neuron(SCALE);
    rt.add_edge(vec![n0], vec![n1, n2], SCALE, 1).unwrap();
    rt
}

/// Neuron 0 with ten outgoing edges, each to a target of its own.
fn fan(weight: i32) -> SnnRuntimePlus {
    let mut rt = SnnRuntimePlus::new(32).unwrap();
    let n0 = rt.add_neuron(SCALE);
    for _ in 0..10 {
        let t = rt.add_neuron(SCALE);
        rt.add_edge(vec![n0], vec![t], weight, 1).unwrap();
    }
    rt.queue().schedule(ev(n0, 0));
    rt
}

fn membranes(rt: &SnnRuntimePlus) -> Vec<i32> {
    rt.neurons().iter().map(|n| n.membrane).collect()
}

fn weights(rt: &SnnRuntimePlus) -> Vec<i32> {
    rt.edges().iter().map(|e| e.weight).collect()
}

#[test]
fn default_budgets_are_unbounded() {
    let b = StepBudgets::default();
    assert!(b.max_edge_visits.is_none());
    assert!(b.max_spikes_scheduled.is_none());
}

#[test]
fn runtime_rejects_wheel_without_slots() {
    match SnnRuntimePlus::new(0) {
        Err(e) => assert_eq!(e, EmbeddedError::InvalidInput("wheel_size must be at least 1")),
        Ok(_) => panic!("a wheel of size 0 was accepted"),
    }
}

#[test]
fn ids_are_indices() {
    let mut rt = SnnRuntimePlus::new(4).unwrap();
    assert_eq!(rt.add_neuron(SCALE), 0);
    assert_eq!(rt.add_neuron(3 * SCALE), 1);
    assert_eq!(rt.neurons()[1], Neuron { id: 1, membrane: 0, threshold: 3 * SCALE, refractory_until: 0 });
    assert_eq!(rt.add_edge(vec![0], vec![1], 7, 2), Ok(0));
    assert_eq!(rt.add_edge(vec![1], vec![0], 8, 3), Ok(1));
    assert_eq!(rt.edges()[1].id, 1);
    assert_eq!(rt.edges()[1].weight, 8);
    assert_eq!(rt.edges()[1].delay, 3);
}

#[test]
fn edge_needs_sources_and_targets() {
    let mut rt = SnnRuntimePlus::new(4).unwrap();
    rt.add_neuron(SCALE);
    let err = Err(EmbeddedError::InvalidInput("an edge needs a source and a target"));
    assert_eq!(rt.add_edge(vec![], vec![0], SCALE, 1), err);
    assert_eq!(rt.add_edge(vec![0], vec![], SCALE, 1), err);
    assert_eq!(rt.edges().len(), 0);
    assert_eq!(rt.outgoing(0), vec![]);
}

#[test]
fn single_chain_unit_delay() {
    let mut rt = chain();
    rt.queue().schedule(ev(0, 0));
    assert_eq!(rt.step_once(), vec![ev(0, 0)]);
    assert_eq!(rt.inner.queue.current_time, 1);
    assert_eq!(rt.step_once(), vec![ev(1, 1), ev(2, 1)]);
    assert_eq!(rt.inner.queue.current_time, 2);
    assert_eq!(rt.step_once(), vec![]);
}

#[test]
fn single_chain_holds_induced_spikes_in_the_wheel() {
    let mut rt = chain();
    rt.queue().schedule(ev(0, 0));
    rt.step_once();
    // the induced spikes wait in the wheel for tick 1
    assert_eq!(rt.queue().next(), vec![ev(1, 1), ev(2, 1)]);
}

#[test]
fn refractory_suppression() {
    let mut rt = chain();
    rt.neurons_mut()[1].refractory_until = 10;
    rt.queue().schedule(ev(0, 0));
    assert_eq!(rt.step_once(), vec![ev(0, 0)]);
    assert_eq!(rt.neurons()[1].membrane, 0);
    assert_eq!(rt.step_once(), vec![ev(2, 1)]);
    assert_eq!(rt.step_once(), vec![]);
}

#[test]
fn edge_visit_budget_truncates_injections() {
    // half the threshold: an injection shows as a charged membrane
    let mut rt = fan(SCALE / 2);
    let b = StepBudgets { max_edge_visits: Some(3), max_spikes_scheduled: None };
    assert_eq!(rt.step_once_with_budgets(b), vec![ev(0, 0)]);
    let half = SCALE / 2;
    assert_eq!(membranes(&rt), vec![0, half, half, half, 0, 0, 0, 0, 0, 0, 0]);
    // the seven edges that were skipped are not delivered later
    assert_eq!(rt.step_once_with_budgets(no_budgets()), vec![]);
    assert_eq!(membranes(&rt), vec![0, half, half, half, 0, 0, 0, 0, 0, 0, 0]);
}

#[test]
fn edge_visit_budget_truncates_induced_spikes() {
    let mut rt = fan(SCALE);
    let b = StepBudgets { max_edge_visits: Some(3), max_spikes_scheduled: None };
    assert_eq!(rt.step_once_with_budgets(b), vec![ev(0, 0)]);
    assert_eq!(rt.step_once_with_budgets(no_budgets()), vec![ev(1, 1), ev(2, 1), ev(3, 1)]);
    for _ in 0..40 {
        assert_eq!(rt.step_once(), vec![]);
    }
    assert_eq!(membranes(&rt), vec![0; 11]);
}

#[test]
fn spike_budget_truncates_scheduling() {
    let mut rt = fan(SCALE);
    let b = StepBudgets { max_edge_visits: None, max_spikes_scheduled: Some(2) };
    assert_eq!(rt.step_once_with_budgets(b), vec![ev(0, 0)]);
    // exactly two induced spikes are in the wheel
    assert_eq!(rt.step_once(), vec![ev(1, 1), ev(2, 1)]);
    for _ in 0..40 {
        assert_eq!(rt.step_once(), vec![]);
    }
}

#[test]
fn spike_budget_keeps_the_injection_that_tripped_it() {
    let mut rt = fan(SCALE);
    // start the targets charged so that a reset shows
    for n in rt.neurons_mut().iter_mut() {
        n.membrane = 5;
    }
    let b = StepBudgets { max_edge_visits: None, max_spikes_scheduled: Some(2) };
    rt.step_once_with_budgets(b);
    // targets 1 to 3 fired and were reset, the third without a spike of its
    // own; the others were never reached
    assert_eq!(membranes(&rt), vec![5, 0, 0, 0, 5, 5, 5, 5, 5, 5, 5]);
}

#[test]
fn zero_edge_budget_delivers_nothing() {
    let mut rt = fan(SCALE);
    rt.queue().schedule(ev(3, 0));
    let b = StepBudgets { max_edge_visits: Some(0), max_spikes_scheduled: None };
    assert_eq!(rt.step_once_with_budgets(b), vec![ev(0, 0), ev(3, 0)]);
    assert_eq!(rt.inner.queue.current_time, 1);
    assert_eq!(membranes(&rt), vec![0; 11]);
    for _ in 0..40 {
        assert_eq!(rt.step_once(), vec![]);
    }
}

#[test]
fn zero_spike_budget_schedules_nothing() {
    let mut rt = fan(SCALE / 2);
    // target 4 is about to fire, those before it are not
    rt.neurons_mut()[4].membrane = SCALE / 2;
    let b = StepBudgets { max_edge_visits: None, max_spikes_scheduled: Some(0) };
    assert_eq!(rt.step_once_with_budgets(b), vec![ev(0, 0)]);
    let half = SCALE / 2;
    // injections up to the first firing target were delivered
    assert_eq!(membranes(&rt), vec![0, half, half, half, 0, 0, 0, 0, 0, 0, 0]);
    for _ in 0..40 {
        assert_eq!(rt.step_once(), vec![]);
    }
}

#[test]
fn budgets_count_over_all_events_of_a_tick() {
    let mut rt = SnnRuntimePlus::new(8).unwrap();
    for _ in 0..6 {
        rt.add_neuron(SCALE);
    }
    rt.add_edge(vec![0], vec![2], SCALE / 2, 1).unwrap();
    rt.add_edge(vec![0], vec![3], SCALE / 2, 1).unwrap();
    rt.add_edge(vec![1], vec![4], SCALE / 2, 1).unwrap();
    rt.add_edge(vec![1], vec![5], SCALE / 2, 1).unwrap();
    rt.queue().schedule(ev(0, 0));
    rt.queue().schedule(ev(1, 0));
    let b = StepBudgets { max_edge_visits: Some(3), max_spikes_scheduled: None };
    assert_eq!(rt.step_once_with_budgets(b), vec![ev(0, 0), ev(1, 0)]);
    let half = SCALE / 2;
    assert_eq!(membranes(&rt), vec![0, 0, half, half, half, 0]);
}

#[test]
fn each_step_advances_time_by_one() {
    let mut rt = fan(SCALE);
    let budgets = [
        no_budgets(),
        StepBudgets { max_edge_visits: Some(0), max_spikes_scheduled: None },
        StepBudgets { max_edge_visits: None, max_spikes_scheduled: Some(0) },
        StepBudgets { max_edge_visits: Some(2), max_spikes_scheduled: Some(1) },
    ];
    for n in 1..=40u64 {
        rt.step_once_with_budgets(budgets[(n % 4) as usize]);
        assert_eq!(rt.inner.queue.current_time, n);
    }
}

#[test]
fn time_saturates_at_the_last_tick() {
    let mut rt = chain();
    rt.queue().current_time = u64::MAX - 1;
    rt.step_once();
    assert_eq!(rt.inner.queue.current_time, u64::MAX);
    rt.step_once();
    assert_eq!(rt.inner.queue.current_time, u64::MAX);
}

#[test]
fn run_until_passes_the_tick() {
    let mut rt = chain();
    rt.queue().schedule(ev(0, 0));
    rt.run_until(2);
    assert_eq!(rt.inner.queue.current_time, 3);
    assert_eq!(membranes(&rt), vec![0, 0, 0]);
    rt.run_until(1);
    assert_eq!(rt.inner.queue.current_time, 3);
}

#[test]
fn run_ticks_takes_one_step_more() {
    let mut rt = chain();
    rt.run_ticks(0);
    assert_eq!(rt.inner.queue.current_time, 1);
    rt.run_ticks(9);
    assert_eq!(rt.inner.queue.current_time, 11);
}

#[test]
fn adjacency_follows_added_edges() {
    let mut rt = SnnRuntimePlus::new(8).unwrap();
    for _ in 0..3 {
        rt.add_neuron(SCALE);
    }
    assert_eq!(rt.outgoing(0), vec![]);
    rt.add_edge(vec![0, 2], vec![1], SCALE, 1).unwrap();
    rt.add_edge(vec![2], vec![0], SCALE, 1).unwrap();
    rt.add_edge(vec![1, 0], vec![2], SCALE, 1).unwrap();
    assert_eq!(rt.outgoing(0), vec![0, 2]);
    assert_eq!(rt.outgoing(1), vec![2]);
    assert_eq!(rt.outgoing(2), vec![0, 1]);
    assert_eq!(rt.outgoing(3), vec![]);
    // every id stands in a row exactly if the neuron is a source of the edge
    for s in 0..4u32 {
        for eid in 0..3u32 {
            let listed = rt.outgoing(s).contains(&eid);
            let is_source = rt.edges()[eid as usize].sources.contains(&s);
            assert_eq!(listed, is_source);
        }
    }
}

#[test]
fn adjacency_grows_for_unknown_sources() {
    let mut rt = SnnRuntimePlus::new(8).unwrap();
    rt.add_neuron(SCALE);
    rt.add_edge(vec![5], vec![0], SCALE, 1).unwrap();
    assert_eq!(rt.outgoing(5), vec![0]);
    assert_eq!(rt.outgoing(4), vec![]);
    // a spike of the unknown source is delivered all the same
    rt.queue().schedule(ev(5, 0));
    assert_eq!(rt.step_once(), vec![ev(5, 0)]);
    assert_eq!(rt.step_once(), vec![ev(0, 1)]);
}

#[test]
fn source_listed_twice_is_linked_once() {
    let mut rt = SnnRuntimePlus::new(8).unwrap();
    rt.add_neuron(SCALE);
    rt.add_neuron(SCALE);
    rt.add_edge(vec![0, 0], vec![1], SCALE / 4, 1).unwrap();
    assert_eq!(rt.outgoing(0), vec![0]);
    assert_eq!(rt.outgoing(1), vec![]);
    rt.queue().schedule(ev(0, 0));
    rt.step_once();
    // one input per spike of the source
    assert_eq!(rt.neurons()[1].membrane, SCALE / 4);
}

#[test]
fn repeated_sources_are_linked_once_each() {
    let mut rt = SnnRuntimePlus::new(8).unwrap();
    for _ in 0..3 {
        rt.add_neuron(SCALE);
    }
    rt.add_edge(vec![1], vec![0], SCALE, 1).unwrap();
    rt.add_edge(vec![2, 1, 2, 6, 1, 1, 6, 2], vec![0], SCALE, 1).unwrap();
    rt.add_edge(vec![1, 1], vec![0], SCALE, 1).unwrap();
    assert_eq!(rt.outgoing(0), vec![]);
    assert_eq!(rt.outgoing(1), vec![0, 1, 2]);
    assert_eq!(rt.outgoing(2), vec![1]);
    assert_eq!(rt.outgoing(6), vec![1]);
    for s in [3u32, 4, 5, 7] {
        assert_eq!(rt.outgoing(s), vec![]);
    }
}

fn populated_inner() -> SnnRuntime {
    let mut inner = SnnRuntime::new(16).unwrap();
    for _ in 0..3 {
        inner.add_neuron(SCALE);
    }
    inner.add_edge(vec![0, 1], vec![2], SCALE, 1).unwrap();
    inner.add_edge(vec![1, 7], vec![0], SCALE, 2).unwrap();
    inner.add_edge(vec![0], vec![1], SCALE, 3).unwrap();
    inner
}

#[test]
fn from_inner_builds_the_index() {
    let rt = SnnRuntimePlus::from_inner(populated_inner());
    assert_eq!(rt.outgoing(0), vec![0, 2]);
    assert_eq!(rt.outgoing(1), vec![0, 1]);
    assert_eq!(rt.outgoing(2), vec![]);
    // a source that names no neuron gets a row of its own
    assert_eq!(rt.outgoing(7), vec![1]);
    for s in [3u32, 4, 5, 6, 8] {
        assert_eq!(rt.outgoing(s), vec![]);
    }
}

#[test]
fn rebuilt_index_links_a_repeated_source_once() {
    let mut inner = SnnRuntime::new(16).unwrap();
    inner.add_neuron(SCALE);
    inner.add_neuron(SCALE);
    inner.add_edge(vec![0, 0, 0], vec![1], SCALE / 4, 1).unwrap();
    inner.add_edge(vec![1, 0, 1], vec![0], SCALE / 4, 1).unwrap();
    let mut rt = SnnRuntimePlus::from_inner(inner);
    assert_eq!(rt.outgoing(0), vec![0, 1]);
    assert_eq!(rt.outgoing(1), vec![1]);
    rt.queue().schedule(ev(0, 0));
    rt.step_once();
    assert_eq!(rt.neurons()[0].membrane, SCALE / 4);
    assert_eq!(rt.neurons()[1].membrane, SCALE / 4);
}

#[test]
fn rebuilt_index_delivers_for_a_source_without_neuron() {
    let mut inner = SnnRuntime::new(16).unwrap();
    inner.add_neuron(SCALE);
    inner.add_edge(vec![5], vec![0], SCALE, 1).unwrap();
    let mut rt = SnnRuntimePlus::from_inner(inner);
    assert_eq!(rt.outgoing(5), vec![0]);
    rt.queue().schedule(ev(5, 0));
    assert_eq!(rt.step_once(), vec![ev(5, 0)]);
    assert_eq!(rt.step_once(), vec![ev(0, 1)]);
}

#[test]
fn index_is_consistent_with_the_edge_table() {
    // built edge by edge, and built from scratch over the same table
    let mut inner = SnnRuntime::new(16).unwrap();
    let mut rt = SnnRuntimePlus::new(16).unwrap();
    for _ in 0..4 {
        inner.add_neuron(SCALE);
        rt.add_neuron(SCALE);
    }
    let lists: [Vec<u32>; 6] = [vec![0], vec![3, 3], vec![9, 0, 9], vec![2, 1, 0, 1, 2], vec![4], vec![0, 0]];
    for sources in lists.iter() {
        inner.add_edge(sources.clone(), vec![1], SCALE, 1).unwrap();
        rt.add_edge(sources.clone(), vec![1], SCALE, 1).unwrap();
    }
    let rebuilt = SnnRuntimePlus::from_inner(inner);
    for s in 0..12u32 {
        let row = rt.outgoing(s);
        assert_eq!(row, rebuilt.outgoing(s));
        // in table order, without duplicates
        assert!(row.windows(2).all(|w| w[0] < w[1]));
        for eid in 0..6u32 {
            assert_eq!(row.contains(&eid), lists[eid as usize].contains(&s));
        }
    }
}

#[test]
fn rebuild_is_idempotent() {
    let mut rt = SnnRuntimePlus::from_inner(populated_inner());
    let rows = |rt: &SnnRuntimePlus| (0..10u32).map(|s| rt.outgoing(s)).collect::<Vec<_>>();
    let once = rows(&rt);
    rt.rebuild_adjacency();
    assert_eq!(rows(&rt), once);
    rt.rebuild_adjacency();
    assert_eq!(rows(&rt), once);
}

#[test]
fn rebuild_follows_changes_of_the_edge_table() {
    let mut rt = chain();
    rt.edges_mut().push(HyperEdge { id: 1, sources: vec![2], targets: vec![0], weight: SCALE, delay: 1 });
    // the index does not follow by itself
    assert_eq!(rt.outgoing(2), vec![]);
    rt.rebuild_adjacency();
    assert_eq!(rt.outgoing(0), vec![0]);
    assert_eq!(rt.outgoing(2), vec![1]);
}

#[test]
fn rebuilt_index_delivers_like_the_incremental_one() {
    let mut a = SnnRuntimePlus::from_inner({
        let mut inner = SnnRuntime::new(32).unwrap();
        for _ in 0..3 {
            inner.add_neuron(SCALE);
        }
        inner.add_edge(vec![0], vec![1, 2], SCALE, 1).unwrap();
        inner
    });
    let mut b = chain();
    a.queue().schedule(ev(0, 0));
    b.queue().schedule(ev(0, 0));
    for _ in 0..5 {
        assert_eq!(a.step_once(), b.step_once());
    }
}

#[test]
fn index_delivers_like_the_scan() {
    // a network built twice the same way; some edges name a source twice
    let mut plain = SnnRuntime::new(16).unwrap();
    let mut plus = SnnRuntimePlus::new(16).unwrap();
    let mut seed = 12345u64;
    let mut next = |bound: u64| {
        seed = seed.wrapping_mul(6364136223846793005).wrapping_add(1442695040888963407);
        (seed >> 33) % bound
    };
    for _ in 0..12 {
        let threshold = (SCALE / 2) * (1 + next(3) as i32);
        plain.add_neuron(threshold);
        plus.add_neuron(threshold);
    }
    for _ in 0..20 {
        let first = next(12) as u32;
        let second = (first + 1 + next(11) as u32) % 12;
        let sources = match next(3) {
            0 => vec![first],
            1 => vec![first, second],
            _ => vec![first, second, first],
        };
        let targets: Vec<u32> = (0..1 + next(3)).map(|_| next(14) as u32).collect();
        let weight = (next(SCALE as u64) as i32) - SCALE / 3;
        let delay = 1 + next(5);
        plain.add_edge(sources.clone(), targets.clone(), weight, delay).unwrap();
        plus.add_edge(sources, targets, weight, delay).unwrap();
    }
    for t in 0..6u64 {
        for _ in 0..4 {
            let e = ev(next(12) as u32, t);
            plain.queue.schedule(e);
            plus.queue().schedule(e);
        }
    }
    let mut delivered = 0;
    for _ in 0..60 {
        let spikes = plain.step_once();
        assert_eq!(spikes, plus.step_once());
        delivered += spikes.len();
        assert!(delivered < 100_000);
        assert_eq!(&plain.neurons, plus.neurons());
        let scanned: Vec<i32> = plain.edges.iter().map(|e| e.weight).collect();
        assert_eq!(scanned, weights(&plus));
    }
    // the seeds alone are 24 spikes; the network added some of its own
    assert!(delivered > 24);
}

#[test]
fn dangling_edge_ids_and_targets_are_skipped() {
    let mut rt = chain();
    rt.add_edge(vec![0], vec![9, 1], SCALE, 1).unwrap();
    // drop the second edge from the table; the index still names it
    rt.edges_mut().pop();
    assert_eq!(rt.outgoing(0), vec![0, 1]);
    rt.queue().schedule(ev(0, 0));
    assert_eq!(rt.step_once(), vec![ev(0, 0)]);
    assert_eq!(rt.step_once(), vec![ev(1, 1), ev(2, 1)]);
}

#[test]
fn skipped_edge_still_counts_as_a_visit() {
    let mut rt = SnnRuntimePlus::new(8).unwrap();
    for _ in 0..3 {
        rt.add_neuron(SCALE);
    }
    rt.add_edge(vec![0], vec![1], SCALE / 2, 1).unwrap();
    rt.add_edge(vec![0], vec![2], SCALE / 2, 1).unwrap();
    // make the first id dangle: swap the table for one edge that is not
    // indexed under neuron 0 at position 0
    rt.edges_mut().clear();
    rt.queue().schedule(ev(0, 0));
    let b = StepBudgets { max_edge_visits: Some(1), max_spikes_scheduled: None };
    assert_eq!(rt.step_once_with_budgets(b), vec![ev(0, 0)]);
    assert_eq!(membranes(&rt), vec![0, 0, 0]);
}

#[test]
fn zero_delay_spike_appears_one_revolution_later() {
    let mut rt = SnnRuntimePlus::new(4).unwrap();
    rt.add_neuron(SCALE);
    rt.add_neuron(SCALE);
    rt.add_edge(vec![0], vec![1], SCALE, 0).unwrap();
    rt.queue().schedule(ev(0, 0));
    assert_eq!(rt.step_once(), vec![ev(0, 0)]);
    assert_eq!(rt.step_once(), vec![]);
    assert_eq!(rt.step_once(), vec![]);
    assert_eq!(rt.step_once(), vec![]);
    // tick 4 shares the slot of tick 0
    assert_eq!(rt.step_once(), vec![ev(1, 0)]);
}

#[test]
fn delivery_time_saturates() {
    let mut rt = SnnRuntimePlus::new(4).unwrap();
    rt.add_neuron(SCALE);
    rt.add_neuron(SCALE);
    rt.add_edge(vec![0], vec![1], SCALE, u64::MAX).unwrap();
    rt.queue().schedule(ev(0, 2));
    rt.step_once();
    rt.step_once();
    assert_eq!(rt.step_once(), vec![ev(0, 2)]);
    // the induced spike carries the last tick, which lives in slot 3
    assert_eq!(rt.step_once(), vec![ev(1, u64::MAX)]);
}

#[test]
fn plasticity_updates_the_weight_of_a_firing_edge() {
    let mut rt = chain();
    // a_plus = 0.5, no depression, no decay, weights in [0, 2]
    rt.set_plasticity(QuantizedStdp::new(SCALE / 2, 0, SCALE, SCALE, 0, 2 * SCALE).unwrap());
    rt.queue().schedule(ev(0, 0));
    rt.step_once();
    // target 1 fired: the weight grew by 0.5 times the pre-trace 1.0; target
    // 2 then received 1.5, fired, and the weight grew again
    assert_eq!(weights(&rt), vec![2 * SCALE]);
    assert_eq!(rt.step_once(), vec![ev(1, 1), ev(2, 1)]);
}

#[test]
fn plasticity_clamps_the_weight() {
    let mut rt = chain();
    rt.set_plasticity(QuantizedStdp::new(SCALE, 0, SCALE, SCALE, SCALE / 4, SCALE + 100).unwrap());
    rt.queue().schedule(ev(0, 0));
    rt.step_once();
    assert_eq!(weights(&rt), vec![SCALE + 100]);
}

#[test]
fn default_plasticity_exact_weight() {
    let mut rt = chain();
    rt.set_plasticity(QuantizedStdp::with_defaults());
    rt.queue().schedule(ev(0, 0));
    rt.step_once();
    // neuron 1 fired: 65536 + 655 * 1.0 - 786 * 1.0; neuron 2 received the
    // lowered weight and stayed below its threshold
    assert_eq!(weights(&rt), vec![65405]);
    assert_eq!(membranes(&rt), vec![0, 0, 65405]);
    assert_eq!(rt.step_once(), vec![ev(1, 1)]);
}

#[test]
fn plasticity_leaves_silent_edges_alone() {
    let mut rt = chain();
    rt.neurons_mut()[1].threshold = 10 * SCALE;
    rt.neurons_mut()[2].threshold = 10 * SCALE;
    rt.set_plasticity(QuantizedStdp::with_defaults());
    rt.queue().schedule(ev(0, 0));
    rt.step_once();
    assert_eq!(weights(&rt), vec![SCALE]);
    assert_eq!(membranes(&rt), vec![0, SCALE, SCALE]);
}

#[test]
fn default_plasticity_keeps_weights_between_zero_and_one() {
    let mut rt = SnnRuntimePlus::new(16).unwrap();
    for _ in 0..4 {
        rt.add_neuron(SCALE / 2);
    }
    rt.add_edge(vec![0], vec![1, 2], SCALE, 1).unwrap();
    rt.add_edge(vec![1], vec![2, 3], SCALE / 2, 1).unwrap();
    rt.add_edge(vec![2, 3], vec![0], SCALE / 3, 2).unwrap();
    rt.set_plasticity(QuantizedStdp::with_defaults());
    rt.queue().schedule(ev(0, 0));
    for _ in 0..200 {
        rt.step_once();
        for w in weights(&rt) {
            assert!(0 <= w && w <= SCALE);
        }
    }
}

#[test]
fn setting_plasticity_again_discards_the_old_rule() {
    let mut rt = chain();
    rt.set_plasticity(QuantizedStdp::new(SCALE, 0, SCALE, SCALE, 0, 8 * SCALE).unwrap());
    // the second rule never changes a weight
    rt.set_plasticity(QuantizedStdp::new(0, 0, SCALE, SCALE, 0, 8 * SCALE).unwrap());
    rt.queue().schedule(ev(0, 0));
    rt.step_once();
    assert_eq!(weights(&rt), vec![SCALE]);
}
