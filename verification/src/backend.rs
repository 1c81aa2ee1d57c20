//! The interface through which a front end drives a simulation, and the
//! backend built on the extended runtime.

use vstd::prelude::*;
use crate::adjacency::link_sources;
use crate::delivery::StepBudgets;
use crate::event_queue::{SpikeEvent, TimeWheel};
use crate::fixed::SCALE;
use crate::plasticity::QuantizedStdp;
use crate::runtime_plus::{PlusView, SnnRuntimePlus};

verus! {

/// What a front end needs from a simulation engine.
pub trait SnnBackend {
    /// The backend can be stepped.
    open spec fn ready(&self) -> bool {
        true
    }

    /// Advances the simulation by one tick and returns the spikes of that
    /// tick.
    fn step(&mut self) -> (spikes: Vec<SpikeEvent>)
        requires
            old(self).ready(),
        ensures
            final(self).ready(),
    ;

    /// The number of neurons of the model.
    fn neurons(&self) -> usize;

    /// Sets the budgets of the following ticks; `None` lifts them. A backend
    /// without budgets ignores the call.
    fn set_budgets(&mut self, _budgets: Option<StepBudgets>)
        ensures
            old(self).ready() ==> final(self).ready(),
    {
    }

    /// The budgets in force, if any. A backend without budgets reports none.
    fn get_budgets(&self) -> (budgets: Option<StepBudgets>)
        default_ensures
            budgets is None,
    {
        None
    }

    /// Installs the default plasticity rule. A backend without plasticity
    /// ignores the call.
    fn enable_default_plasticity(&mut self)
        ensures
            old(self).ready() ==> final(self).ready(),
    {
    }

    /// Whether a plasticity rule was installed through this interface. A
    /// backend without plasticity reports that none was.
    fn plasticity_enabled(&self) -> (on: bool)
        default_ensures
            !on,
    {
        false
    }
}

/// Mathematical model of the backend on the extended runtime.
pub struct BackendView {
    pub runtime: PlusView,
    pub budgets: Option<StepBudgets>,
    pub plasticity_on: bool,
}

impl BackendView {
    /// The budgets under which the next tick runs.
    pub open spec fn budgets_in_force(self) -> StepBudgets {
        match self.budgets {
            Some(b) => b,
            None => StepBudgets::unbounded(),
        }
    }

    /// The backend after one tick.
    pub open spec fn step(self) -> BackendView {
        BackendView { runtime: self.runtime.step(self.budgets_in_force()), ..self }
    }
}

/// A backend on the extended runtime, with optional budgets and plasticity.
pub struct CoreBackend {
    runtime: SnnRuntimePlus,
    budgets: Option<StepBudgets>,
    plast_on: bool,
}

impl View for CoreBackend {
    type V = BackendView;

    closed spec fn view(&self) -> BackendView {
        BackendView { runtime: self.runtime@, budgets: self.budgets, plasticity_on: self.plast_on }
    }
}

impl CoreBackend {
    /// The time wheel of the runtime.
    pub closed spec fn wheel(&self) -> TimeWheel {
        self.runtime.wheel()
    }

    /// The wheel of the runtime is usable.
    pub open spec fn wf(&self) -> bool {
        self.wheel().wf()
    }

    /// A demonstration network: a wheel of 32 slots, three neurons with
    /// threshold `1.0`, one edge from neuron 0 to neurons 1 and 2 with weight
    /// `1.0` and delay 1, and a spike of neuron 0 at tick 0, which is the one
    /// event in the wheel. No budgets, no plasticity.
    pub fn new() -> (backend: CoreBackend)
        ensures
            backend.wf(),
            backend@.runtime.wheel == backend.wheel()@,
            backend@.budgets is None,
            !backend@.plasticity_on,
            backend@.runtime.rule is None,
            backend@.runtime.indexed(),
            backend@.runtime.in_order(),
            backend@.runtime.neurons == seq![
                crate::neuron::Neuron { id: 0, membrane: 0, threshold: SCALE, refractory_until: 0 },
                crate::neuron::Neuron { id: 1, membrane: 0, threshold: SCALE, refractory_until: 0 },
                crate::neuron::Neuron { id: 2, membrane: 0, threshold: SCALE, refractory_until: 0 },
            ],
            backend@.runtime.edges == seq![
                crate::hypergraph::EdgeView {
                    id: 0,
                    sources: seq![0u32],
                    targets: seq![1u32, 2u32],
                    weight: SCALE,
                    delay: 1,
                },
            ],
            backend@.runtime.adjacency == seq![seq![0u32], Seq::<u32>::empty(), Seq::<u32>::empty()],
            backend@.runtime.wheel.current_time == 0,
            backend@.runtime.wheel.slots.len() == 32,
            backend@.runtime.wheel.due() == seq![SpikeEvent { neuron_id: 0, time: 0 }],
            forall|k: int|
                1 <= k < 32 ==> #[trigger] backend@.runtime.wheel.slots[k] == Seq::<
                    SpikeEvent,
                >::empty(),
    {
        let mut rt = SnnRuntimePlus::new(32).unwrap();
        let n0 = rt.add_neuron(SCALE);
        let n1 = rt.add_neuron(SCALE);
        let n2 = rt.add_neuron(SCALE);
        let mut sources: Vec<u32> = Vec::new();
        sources.push(n0);
        let mut targets: Vec<u32> = Vec::new();
        targets.push(n1);
        targets.push(n2);
        assert(sources@ =~= seq![0u32]);
        assert(targets@ =~= seq![1u32, 2u32]);
        let _ = rt.add_edge(sources, targets, SCALE, 1);
        let ghost wired = rt@;
        rt.queue().schedule(SpikeEvent { neuron_id: n0, time: 0 });
        proof {
            assert(rt@.neurons =~= wired.neurons);
            assert(wired.neurons =~= seq![
                crate::neuron::Neuron { id: 0, membrane: 0, threshold: SCALE, refractory_until: 0 },
                crate::neuron::Neuron { id: 1, membrane: 0, threshold: SCALE, refractory_until: 0 },
                crate::neuron::Neuron { id: 2, membrane: 0, threshold: SCALE, refractory_until: 0 },
            ]);
            assert(wired.edges =~= seq![
                crate::hypergraph::EdgeView {
                    id: 0,
                    sources: seq![0u32],
                    targets: seq![1u32, 2u32],
                    weight: SCALE,
                    delay: 1,
                },
            ]);
            assert(rt@.wheel.due() =~= seq![SpikeEvent { neuron_id: 0, time: 0 }]);
            reveal_with_fuel(link_sources, 2);
            assert(wired.adjacency =~~= seq![seq![0u32], Seq::<u32>::empty(), Seq::<u32>::empty()]);
        }
        CoreBackend { runtime: rt, budgets: None, plast_on: false }
    }

    /// Sets the budgets of the following ticks; `None` lifts them.
    pub fn set_budgets(&mut self, budgets: Option<StepBudgets>)
        ensures
            final(self).wheel() == old(self).wheel(),
            final(self)@ == (BackendView { budgets, ..old(self)@ }),
    {
        self.budgets = budgets;
    }

    /// The time wheel of the runtime, for seeding spikes from outside.
    pub fn queue_mut(&mut self) -> (q: &mut TimeWheel)
        ensures
            *q == old(self).wheel(),
            q@ == old(self)@.runtime.wheel,
            final(self).wheel() == *final(q),
            final(self)@ == (BackendView {
                runtime: PlusView { wheel: final(q)@, ..old(self)@.runtime },
                ..old(self)@
            }),
    {
        self.runtime.queue()
    }

    /// Installs a fresh default plasticity rule in the runtime, in place of
    /// any rule that was there.
    pub fn enable_default_plasticity(&mut self)
        ensures
            final(self).wheel() == old(self).wheel(),
            final(self)@ == (BackendView {
                runtime: PlusView {
                    rule: Some(default_rule()),
                    ..old(self)@.runtime
                },
                ..old(self)@
            }),
    {
        self.runtime.set_plasticity(QuantizedStdp::with_defaults());
    }
}

/// The model of the default plasticity rule.
pub open spec fn default_rule() -> crate::plasticity::StdpView {
    crate::plasticity::StdpView {
        a_plus: 655,
        a_minus: 786,
        alpha_pre: 62914,
        alpha_post: 62914,
        w_min: 0,
        w_max: 65536,
        pre_trace: Seq::empty(),
        post_trace: Seq::empty(),
    }
}

impl SnnBackend for CoreBackend {
    open spec fn ready(&self) -> bool {
        self.wf()
    }

    fn step(&mut self) -> (spikes: Vec<SpikeEvent>)
        ensures
            spikes@ == old(self)@.runtime.wheel.due(),
            final(self)@ == old(self)@.step(),
    {
        match self.budgets {
            Some(b) => self.runtime.step_once_with_budgets(b),
            None => self.runtime.step_once(),
        }
    }

    fn neurons(&self) -> (n: usize)
        ensures
            n == self@.runtime.neurons.len(),
    {
        self.runtime.neurons().len()
    }

    fn set_budgets(&mut self, budgets: Option<StepBudgets>)
        ensures
            final(self).wheel() == old(self).wheel(),
            final(self)@ == (BackendView { budgets, ..old(self)@ }),
    {
        self.budgets = budgets;
    }

    fn get_budgets(&self) -> (budgets: Option<StepBudgets>)
        ensures
            budgets == self@.budgets,
    {
        self.budgets
    }

    fn enable_default_plasticity(&mut self)
        ensures
            final(self).wheel() == old(self).wheel(),
            final(self)@ == if old(self)@.plasticity_on {
                old(self)@
            } else {
                BackendView {
                    runtime: PlusView { rule: Some(default_rule()), ..old(self)@.runtime },
                    plasticity_on: true,
                    ..old(self)@
                }
            },
    {
        if !self.plast_on {
            self.runtime.set_plasticity(QuantizedStdp::with_defaults());
            self.plast_on = true;
        }
    }

    fn plasticity_enabled(&self) -> (on: bool)
        ensures
            on == self@.plasticity_on,
    {
        self.plast_on
    }
}

} // verus!
