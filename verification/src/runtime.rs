//! The plain runtime: neurons, hyperedges and a time wheel, stepped one tick
//! at a time. Each spike is delivered by a scan of the whole edge table.

use vstd::prelude::*;
use crate::delivery::{
    deliver_targets, lemma_extends_chain, lemma_extends_self, lemma_scanned_events_extend,
    lemma_targets_extend, lemma_targets_without_spike_budget,
    StepBudgets, Tick,
};
use crate::error::EmbeddedError;
use crate::event_queue::{lemma_advance_keeps_wf, SpikeEvent, TimeWheel, WheelView};
use crate::fixed::Fixed;
use crate::hypergraph::{edges_view, EdgeView, HyperEdge};
use crate::neuron::Neuron;
use crate::plasticity::QuantizedStdp;

verus! {

/// Mathematical model of a network: the neuron table, the edge table and the
/// wheel.
pub struct NetView {
    pub neurons: Seq<Neuron>,
    pub edges: Seq<EdgeView>,
    pub wheel: WheelView,
}

impl NetView {
    /// The state in which the delivery of a tick starts: the events of the
    /// current slot are taken out, the wheel has advanced, nothing was
    /// delivered yet.
    pub open spec fn start_tick(self) -> Tick {
        Tick {
            neurons: self.neurons,
            edges: self.edges,
            wheel: self.wheel.advance(),
            rule: None,
            edge_visits: 0,
            spikes: 0,
            halted: false,
        }
    }

    /// The network after one tick: the events that were due are delivered,
    /// each along every edge that has its neuron among the sources, in table
    /// order.
    pub open spec fn step(self) -> NetView {
        let due = self.wheel.due();
        let end = self.start_tick().after_scanned_events(due, due.len());
        NetView { neurons: end.neurons, edges: end.edges, wheel: end.wheel }
    }

    /// The network after `n` ticks.
    pub open spec fn after_steps(self, n: nat) -> NetView
        decreases n,
    {
        if n == 0 {
            self
        } else {
            self.after_steps((n - 1) as nat).step()
        }
    }

    /// The number of ticks that it takes to bring the current tick past
    /// `until`.
    pub open spec fn steps_until(self, until: u64) -> nat {
        if self.wheel.current_time <= until {
            (until - self.wheel.current_time + 1) as nat
        } else {
            0
        }
    }

    /// The network with one more neuron, at rest, whose id is its index.
    pub open spec fn with_neuron(self, threshold: Fixed) -> NetView {
        NetView {
            neurons: self.neurons.push(
                Neuron {
                    id: self.neurons.len() as u32,
                    membrane: 0,
                    threshold,
                    refractory_until: 0,
                },
            ),
            ..self
        }
    }

    /// The network with one more edge, whose id is its index.
    pub open spec fn with_edge(
        self,
        sources: Seq<u32>,
        targets: Seq<u32>,
        weight: Fixed,
        delay: u64,
    ) -> NetView {
        NetView {
            edges: self.edges.push(
                EdgeView { id: self.edges.len() as u32, sources, targets, weight, delay },
            ),
            ..self
        }
    }

    /// Every neuron and every edge has its index as its id.
    pub open spec fn ids_match(self) -> bool {
        &&& forall|i: int| 0 <= i < self.neurons.len() ==> (#[trigger] self.neurons[i]).id == i
        &&& forall|j: int| 0 <= j < self.edges.len() ==> (#[trigger] self.edges[j]).id == j
    }
}

/// A network of integrate-and-fire neurons connected by hyperedges.
pub struct SnnRuntime {
    pub neurons: Vec<Neuron>,
    pub edges: Vec<HyperEdge>,
    pub queue: TimeWheel,
}

impl View for SnnRuntime {
    type V = NetView;

    open spec fn view(&self) -> NetView {
        NetView { neurons: self.neurons@, edges: edges_view(self.edges@), wheel: self.queue@ }
    }
}

impl SnnRuntime {
    /// The runtime can be stepped: its wheel is usable.
    pub open spec fn wf(&self) -> bool {
        self.queue.wf()
    }

    /// Creates an empty network over a wheel of `wheel_size` slots.
    /// A wheel without slots is rejected.
    pub fn new(wheel_size: u64) -> (r: Result<SnnRuntime, EmbeddedError>)
        ensures
            wheel_size == 0 <==> r is Err,
            r matches Err(e) ==> e == EmbeddedError::InvalidInput("wheel_size must be at least 1"),
            r matches Ok(rt) ==> {
                &&& rt.wf()
                &&& rt@.ids_match()
                &&& rt@.neurons.len() == 0
                &&& rt@.edges.len() == 0
                &&& rt@.wheel.current_time == 0
                &&& rt@.wheel.slots.len() == wheel_size
                &&& forall|k: int|
                    0 <= k < wheel_size ==> #[trigger] rt@.wheel.slots[k] == Seq::<
                        SpikeEvent,
                    >::empty()
            },
    {
        match TimeWheel::new(wheel_size) {
            Ok(queue) => Ok(SnnRuntime { neurons: Vec::new(), edges: Vec::new(), queue }),
            Err(e) => Err(e),
        }
    }

    /// Appends a resting neuron with the given threshold and returns its id,
    /// which is its index in the neuron table.
    pub fn add_neuron(&mut self, threshold: Fixed) -> (id: u32)
        requires
            old(self).neurons@.len() <= u32::MAX,
        ensures
            id == old(self).neurons@.len(),
            final(self)@ == old(self)@.with_neuron(threshold),
            final(self).queue == old(self).queue,
            final(self).edges == old(self).edges,
            old(self)@.ids_match() ==> final(self)@.ids_match(),
    {
        let id = self.neurons.len() as u32;
        self.neurons.push(Neuron::new(id, threshold));
        id
    }

    /// Appends an edge and returns its id, which is its index in the edge
    /// table. An edge without sources or without targets is rejected, and
    /// the network stays as it was.
    pub fn add_edge(&mut self, sources: Vec<u32>, targets: Vec<u32>, weight: Fixed, delay: u64) -> (r:
        Result<u32, EmbeddedError>)
        requires
            old(self).edges@.len() <= u32::MAX,
        ensures
            sources@.len() == 0 || targets@.len() == 0 <==> r is Err,
            r matches Err(e) ==> {
                &&& e == EmbeddedError::InvalidInput("an edge needs a source and a target")
                &&& *final(self) == *old(self)
            },
            r matches Ok(id) ==> {
                &&& id == old(self).edges@.len()
                &&& final(self)@ == old(self)@.with_edge(sources@, targets@, weight, delay)
                &&& final(self).queue == old(self).queue
                &&& final(self).neurons == old(self).neurons
                &&& old(self)@.ids_match() ==> final(self)@.ids_match()
            },
    {
        if sources.len() == 0 || targets.len() == 0 {
            return Err(EmbeddedError::InvalidInput("an edge needs a source and a target"));
        }
        let id = self.edges.len() as u32;
        self.edges.push(HyperEdge { id, sources, targets, weight, delay });
        assert(self@.edges =~= old(self)@.with_edge(sources@, targets@, weight, delay).edges);
        Ok(id)
    }

    /// Advances the simulation by one tick and returns the spikes of that
    /// tick: the events that the wheel held for it, in insertion order.
    /// Spikes that the delivery induces are scheduled, not returned.
    pub fn step_once(&mut self) -> (events: Vec<SpikeEvent>)
        requires
            old(self).wf(),
        ensures
            final(self).wf(),
            events@ == old(self)@.wheel.due(),
            final(self)@ == old(self)@.step(),
    {
        let events = self.queue.next();
        let budgets = StepBudgets { max_edge_visits: None, max_spikes_scheduled: None };
        let mut no_rule: Option<QuantizedStdp> = None;
        let mut spikes: usize = 0;
        let ghost start = old(self)@.start_tick();
        let ghost mut cur = start;
        proof {
            lemma_advance_keeps_wf(old(self)@.wheel);
            lemma_extends_self(start);
            assert(start.reflects(self.neurons@, self.edges@, self.queue@, no_rule));
        }
        let mut i: usize = 0;
        while i < events.len()
            invariant
                i <= events@.len(),
                budgets == StepBudgets::unbounded(),
                no_rule is None,
                self.queue.wf(),
                start.wheel.wf(),
                cur == start.after_scanned_events(events@, i as nat),
                cur.reflects(self.neurons@, self.edges@, self.queue@, no_rule),
                cur.extends(start),
                !cur.halted,
            decreases events@.len() - i,
        {
            let ev = events[i];
            let ghost at_event = cur;
            let edge_count = self.edges.len();
            let mut j: usize = 0;
            while j < edge_count
                invariant
                    j <= edge_count,
                    edge_count == at_event.edges.len(),
                    edge_count == self.edges@.len(),
                    budgets == StepBudgets::unbounded(),
                    no_rule is None,
                    self.queue.wf(),
                    at_event.wheel.wf(),
                    cur == at_event.after_scan(ev, j as nat),
                    cur.reflects(self.neurons@, self.edges@, self.queue@, no_rule),
                    cur.extends(at_event),
                    !at_event.halted,
                    !cur.halted,
                decreases edge_count - j,
            {
                let ghost before = cur;
                assert(before.edges[j as int] == self.edges@[j as int]@);
                if self.edges[j].has_source(ev.neuron_id) {
                    let _ = deliver_targets(
                        &mut self.neurons,
                        &mut self.edges,
                        &mut self.queue,
                        &mut no_rule,
                        budgets,
                        ev,
                        j,
                        &mut spikes,
                        Ghost(before),
                    );
                }
                proof {
                    cur = before.scan_edge(ev, j as int);
                    let len = before.edges[j as int].targets.len();
                    lemma_targets_extend(before, budgets, ev, j as int, len);
                    lemma_targets_without_spike_budget(before, budgets, ev, j as int, len);
                    lemma_extends_chain(at_event, before, cur);
                }
                j = j + 1;
            }
            proof {
                lemma_extends_chain(start, at_event, cur);
            }
            i = i + 1;
        }
        events
    }

    /// Steps until the current tick has passed `until`. The last
    /// representable tick cannot be passed, so `until` stays below it.
    pub fn run_until(&mut self, until: u64)
        requires
            old(self).wf(),
            until < u64::MAX,
        ensures
            final(self).wf(),
            final(self)@ == old(self)@.after_steps(old(self)@.steps_until(until)),
    {
        let ghost start = self@;
        let ghost mut done: nat = 0;
        while self.queue.now() <= until
            invariant
                until < u64::MAX,
                self.wf(),
                self@ == start.after_steps(done),
                start.wheel.current_time > until ==> done == 0,
                start.wheel.current_time <= until ==> {
                    &&& self@.wheel.current_time == start.wheel.current_time + done
                    &&& self@.wheel.current_time <= until + 1
                },
            decreases until + 1 - self@.wheel.current_time,
        {
            let ghost before = self@;
            let _ = self.step_once();
            proof {
                lemma_step_advances_time(before);
                done = done + 1;
            }
        }
    }

    /// Steps until the current tick has passed its present value plus
    /// `ticks`: `ticks + 1` steps. The sum stays below the last representable
    /// tick, which cannot be passed.
    pub fn run_ticks(&mut self, ticks: u64)
        requires
            old(self).wf(),
            old(self)@.wheel.current_time + ticks < u64::MAX,
        ensures
            final(self).wf(),
            final(self)@ == old(self)@.after_steps((ticks + 1) as nat),
    {
        let until = self.queue.now().saturating_add(ticks);
        self.run_until(until);
    }
}

/// One tick moves the current tick forward by exactly one (the last
/// representable tick stays), keeps the wheel well formed, and keeps the
/// number of neurons and the wiring of the edges.
pub proof fn lemma_step_advances_time(net: NetView)
    requires
        net.wheel.wf(),
    ensures
        net.step().wheel.wf(),
        net.step().wheel.current_time == WheelView::tick_after(net.wheel.current_time),
        net.step().wheel.slots.len() == net.wheel.slots.len(),
        net.step().neurons.len() == net.neurons.len(),
        net.step().edges.len() == net.edges.len(),
{
    lemma_advance_keeps_wf(net.wheel);
    let due = net.wheel.due();
    lemma_scanned_events_extend(net.start_tick(), due, due.len());
}

/// One tick keeps every neuron and every edge under the id that is its
/// index.
pub proof fn lemma_step_keeps_ids(net: NetView)
    requires
        net.wheel.wf(),
        net.ids_match(),
    ensures
        net.step().ids_match(),
{
    lemma_advance_keeps_wf(net.wheel);
    let due = net.wheel.due();
    lemma_scanned_events_extend(net.start_tick(), due, due.len());
}

/// After `n` ticks the current tick is the initial one plus `n`, held at
/// the last representable tick.
pub proof fn lemma_steps_advance_time(net: NetView, n: nat)
    requires
        net.wheel.wf(),
    ensures
        net.after_steps(n).wheel.wf(),
        net.after_steps(n).wheel.current_time == if net.wheel.current_time + n > u64::MAX {
            u64::MAX as int
        } else {
            net.wheel.current_time + n
        },
    decreases n,
{
    if n > 0 {
        lemma_steps_advance_time(net, (n - 1) as nat);
        lemma_step_advances_time(net.after_steps((n - 1) as nat));
    }
}

} // verus!
