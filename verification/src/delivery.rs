//! The delivery of one tick, as a mathematical model and as the executable
//! step that both runtimes share.
//!
//! A tick starts from the events that the wheel handed out. Each event is
//! delivered along its outgoing edges; each edge injects its weight into its
//! targets at the time of the event plus the delay of the edge; a target that
//! fires gets a spike of its own scheduled. Two optional budgets cap the
//! number of edge visits and of scheduled spikes. A budget that trips stops
//! the delivery of the tick for good: what was done stays done, what was not
//! yet visited is dropped and never retried.

use vstd::prelude::*;
use crate::adjacency::{
    adjacency_in_order, lemma_outgoing_depends_on_sources, lemma_same_sources, outgoing_of, row_at,
};
use crate::event_queue::{lemma_schedule_keeps_wf, SpikeEvent, TimeWheel, WheelView};
use crate::hypergraph::{edges_view, EdgeView, HyperEdge};
use crate::neuron::Neuron;
use crate::plasticity::{lemma_weight_stays_clamped, PlasticityRule, QuantizedStdp, StdpView};

verus! {

/// Caps on the work of one tick. `None` means unbounded.
#[derive(Clone, Copy, Debug)]
pub struct StepBudgets {
    pub max_edge_visits: Option<usize>,
    pub max_spikes_scheduled: Option<usize>,
}

impl StepBudgets {
    /// No cap on either kind of work.
    pub open spec fn unbounded() -> StepBudgets {
        StepBudgets { max_edge_visits: None, max_spikes_scheduled: None }
    }
}

impl Default for StepBudgets {
    fn default() -> (b: StepBudgets)
        ensures
            b == StepBudgets::unbounded(),
    {
        StepBudgets { max_edge_visits: None, max_spikes_scheduled: None }
    }
}

/// The model of an optional rule.
pub open spec fn rule_view(rule: Option<QuantizedStdp>) -> Option<StdpView> {
    match rule {
        Some(r) => Some(r@),
        None => None,
    }
}

/// The time at which an edge with the given delay delivers an event of the
/// given time: their sum, held at the last representable tick.
pub open spec fn deliver_time(time: u64, delay: u64) -> u64 {
    if time + delay > u64::MAX {
        u64::MAX
    } else {
        (time + delay) as u64
    }
}

/// Two edge tables differ at most in the weights of their edges.
pub open spec fn same_wiring(a: Seq<EdgeView>, b: Seq<EdgeView>) -> bool {
    &&& a.len() == b.len()
    &&& forall|j: int| 0 <= j < a.len() ==> (#[trigger] b[j]).with_weight(a[j].weight) == a[j]
}

/// Two neuron tables differ at most in the membranes of their neurons.
pub open spec fn same_cells(a: Seq<Neuron>, b: Seq<Neuron>) -> bool {
    &&& a.len() == b.len()
    &&& forall|i: int|
        0 <= i < a.len() ==> (#[trigger] b[i]) == (Neuron { membrane: b[i].membrane, ..a[i] })
}

/// The state of a network in the middle of a tick.
pub struct Tick {
    pub neurons: Seq<Neuron>,
    pub edges: Seq<EdgeView>,
    pub wheel: WheelView,
    pub rule: Option<StdpView>,
    /// Edges visited so far in this tick.
    pub edge_visits: nat,
    /// Spikes scheduled so far in this tick.
    pub spikes: nat,
    /// A budget tripped: the rest of the tick is dropped.
    pub halted: bool,
}

impl Tick {
    /// The same state with delivery stopped.
    pub open spec fn halt(self) -> Tick {
        Tick { halted: true, ..self }
    }

    /// The state after target `k` of edge `eid` received the event `ev`.
    ///
    /// A target that names no neuron is skipped. Otherwise the current weight
    /// of the edge is injected. A target that fires when the spike budget is
    /// used up stops the tick, with the injection done and no spike
    /// scheduled. Otherwise its spike is scheduled and counted, and a rule,
    /// where one is installed, sees the spike and updates the weight of the
    /// edge.
    pub open spec fn hit_target(self, b: StepBudgets, ev: SpikeEvent, eid: int, k: int) -> Tick {
        let edge = self.edges[eid];
        let tgt = edge.targets[k];
        let at = deliver_time(ev.time, edge.delay);
        if self.halted || tgt as int >= self.neurons.len() {
            self
        } else {
            let (cell, fired) = self.neurons[tgt as int].injected(edge.weight, at);
            let charged = Tick { neurons: self.neurons.update(tgt as int, cell), ..self };
            if !fired {
                charged
            } else if b.max_spikes_scheduled matches Some(m) && charged.spikes >= m {
                charged.halt()
            } else {
                let queued = Tick {
                    wheel: charged.wheel.schedule(SpikeEvent { neuron_id: tgt, time: at }),
                    spikes: charged.spikes + 1,
                    ..charged
                };
                match queued.rule {
                    None => queued,
                    Some(r) => {
                        let seen = r.post_spiked(tgt);
                        Tick {
                            rule: Some(seen.edge_applied(ev.neuron_id, tgt)),
                            edges: queued.edges.update(
                                eid,
                                edge.with_weight(seen.weight_after(ev.neuron_id, tgt, edge.weight)),
                            ),
                            ..queued
                        }
                    },
                }
            }
        }
    }

    /// The state after the first `n` targets of edge `eid` received `ev`.
    pub open spec fn after_targets(self, b: StepBudgets, ev: SpikeEvent, eid: int, n: nat) -> Tick
        decreases n,
    {
        if n == 0 {
            self
        } else {
            self.after_targets(b, ev, eid, (n - 1) as nat).hit_target(b, ev, eid, n - 1)
        }
    }

    /// The state after the visit of edge `eid` on behalf of `ev`.
    ///
    /// With the edge-visit budget used up the tick stops. Otherwise the
    /// visit is counted, and an id that names an edge has all its targets
    /// served; an id that names none is skipped.
    pub open spec fn visit_edge(self, b: StepBudgets, ev: SpikeEvent, eid: u32) -> Tick {
        if self.halted {
            self
        } else if b.max_edge_visits matches Some(m) && self.edge_visits >= m {
            self.halt()
        } else {
            let counted = Tick { edge_visits: self.edge_visits + 1, ..self };
            if (eid as int) < self.edges.len() {
                counted.after_targets(b, ev, eid as int, self.edges[eid as int].targets.len())
            } else {
                counted
            }
        }
    }

    /// The state after the first `n` edges of an adjacency row were visited
    /// on behalf of `ev`.
    pub open spec fn after_row(self, b: StepBudgets, ev: SpikeEvent, row: Seq<u32>, n: nat) -> Tick
        decreases n,
    {
        if n == 0 {
            self
        } else {
            self.after_row(b, ev, row, (n - 1) as nat).visit_edge(b, ev, row[n - 1])
        }
    }

    /// The state with the rule, where one is installed, told of a spike of
    /// neuron `pre`.
    pub open spec fn note_pre_spike(self, pre: u32) -> Tick {
        match self.rule {
            Some(r) => Tick { rule: Some(r.pre_spiked(pre)), ..self },
            None => self,
        }
    }

    /// The state after the event `ev` was delivered along the adjacency row
    /// of its neuron. A neuron without a row has nothing delivered.
    pub open spec fn deliver_event(
        self,
        b: StepBudgets,
        ev: SpikeEvent,
        adjacency: Seq<Seq<u32>>,
    ) -> Tick {
        if self.halted {
            self
        } else {
            let noted = self.note_pre_spike(ev.neuron_id);
            if (ev.neuron_id as int) < adjacency.len() {
                let row = adjacency[ev.neuron_id as int];
                noted.after_row(b, ev, row, row.len())
            } else {
                noted
            }
        }
    }

    /// The state after the first `n` events were delivered.
    pub open spec fn after_events(
        self,
        b: StepBudgets,
        events: Seq<SpikeEvent>,
        adjacency: Seq<Seq<u32>>,
        n: nat,
    ) -> Tick
        decreases n,
    {
        if n == 0 {
            self
        } else {
            self.after_events(b, events, adjacency, (n - 1) as nat).deliver_event(
                b,
                events[n - 1],
                adjacency,
            )
        }
    }

    /// The state after edge `j` was examined on behalf of `ev` by a scan of
    /// the edge table: an edge that has the neuron of `ev` among its sources
    /// has all its targets served.
    pub open spec fn scan_edge(self, ev: SpikeEvent, j: int) -> Tick {
        if self.edges[j].has_source(ev.neuron_id as int) {
            self.after_targets(StepBudgets::unbounded(), ev, j, self.edges[j].targets.len())
        } else {
            self
        }
    }

    /// The state after the first `n` edges of the table were examined on
    /// behalf of `ev`.
    pub open spec fn after_scan(self, ev: SpikeEvent, n: nat) -> Tick
        decreases n,
    {
        if n == 0 {
            self
        } else {
            self.after_scan(ev, (n - 1) as nat).scan_edge(ev, n - 1)
        }
    }

    /// The state after the first `n` events were delivered by scanning the
    /// edge table for each of them.
    pub open spec fn after_scanned_events(self, events: Seq<SpikeEvent>, n: nat) -> Tick
        decreases n,
    {
        if n == 0 {
            self
        } else {
            let before = self.after_scanned_events(events, (n - 1) as nat);
            before.after_scan(events[n - 1], before.edges.len())
        }
    }

    /// What a tick never touches, whatever it delivers: the neurons but for
    /// their membranes, the wiring of the edges, the current tick and the
    /// number of slots of the wheel, the rule being installed or not. The
    /// wheel stays well formed, and the counters do not go down.
    pub open spec fn extends(self, from: Tick) -> bool {
        &&& same_cells(from.neurons, self.neurons)
        &&& same_wiring(from.edges, self.edges)
        &&& self.wheel.wf()
        &&& self.wheel.slots.len() == from.wheel.slots.len()
        &&& self.wheel.current_time == from.wheel.current_time
        &&& (self.rule is Some) == (from.rule is Some)
        &&& self.edge_visits >= from.edge_visits
        &&& self.spikes >= from.spikes
        &&& from.halted ==> self == from
    }

    /// Neither counter exceeds its budget.
    pub open spec fn within(self, b: StepBudgets) -> bool {
        &&& b.max_edge_visits matches Some(m) ==> self.edge_visits <= m
        &&& b.max_spikes_scheduled matches Some(m) ==> self.spikes <= m
    }

    /// If no spike was scheduled since `from`, the wheel and the edge table
    /// are those of `from`.
    pub open spec fn quiet_since(self, from: Tick) -> bool {
        self.spikes == from.spikes ==> self.wheel == from.wheel && self.edges == from.edges
    }

    /// If no edge was visited since `from`, the neurons, the edge table, the
    /// wheel and the spike count are those of `from`.
    pub open spec fn idle_since(self, from: Tick) -> bool {
        self.edge_visits == from.edge_visits ==> {
            &&& self.neurons == from.neurons
            &&& self.edges == from.edges
            &&& self.wheel == from.wheel
            &&& self.spikes == from.spikes
        }
    }

    /// The two states agree on everything but the count of edge visits.
    pub open spec fn agrees(self, other: Tick) -> bool {
        &&& self.neurons == other.neurons
        &&& self.edges == other.edges
        &&& self.wheel == other.wheel
        &&& self.rule == other.rule
        &&& self.spikes == other.spikes
        &&& self.halted == other.halted
    }

    /// Where a rule is installed, its bounds are ordered and every weight of
    /// the edge table lies within them.
    pub open spec fn weights_clamped(self) -> bool {
        self.rule matches Some(r) ==> {
            &&& r.ordered()
            &&& forall|j: int|
                0 <= j < self.edges.len() ==> r.w_min <= (#[trigger] self.edges[j]).weight <= r.w_max
        }
    }

    /// The model agrees with the given parts of a runtime.
    pub open spec fn reflects(
        self,
        neurons: Seq<Neuron>,
        edges: Seq<HyperEdge>,
        wheel: WheelView,
        rule: Option<QuantizedStdp>,
    ) -> bool {
        &&& self.neurons == neurons
        &&& self.edges == edges_view(edges)
        &&& self.wheel == wheel
        &&& self.rule == rule_view(rule)
    }
}

/// Serving one target keeps what a tick never touches.
pub proof fn lemma_hit_target_extends(t: Tick, b: StepBudgets, ev: SpikeEvent, eid: int, k: int)
    requires
        t.wheel.wf(),
        0 <= eid < t.edges.len(),
    ensures
        t.hit_target(b, ev, eid, k).extends(t),
        t.hit_target(b, ev, eid, k).edge_visits == t.edge_visits,
{
    let edge = t.edges[eid];
    let tgt = edge.targets[k];
    let at = deliver_time(ev.time, edge.delay);
    lemma_schedule_keeps_wf(t.wheel, SpikeEvent { neuron_id: tgt, time: at });
    let after = t.hit_target(b, ev, eid, k);
    assert forall|j: int| 0 <= j < t.edges.len() implies (#[trigger] after.edges[j]).with_weight(
        t.edges[j].weight,
    ) == t.edges[j] by {}
}

/// `extends` is transitive.
pub proof fn lemma_extends_chain(a: Tick, b: Tick, c: Tick)
    requires
        b.extends(a),
        c.extends(b),
    ensures
        c.extends(a),
{
    assert forall|j: int| 0 <= j < a.edges.len() implies (#[trigger] c.edges[j]).with_weight(
        a.edges[j].weight,
    ) == a.edges[j] by {
        assert(b.edges[j].with_weight(a.edges[j].weight) == a.edges[j]);
        assert(c.edges[j].with_weight(b.edges[j].weight) == b.edges[j]);
    }
}

/// Serving the targets of an edge keeps what a tick never touches, and
/// counts no edge visit.
pub proof fn lemma_targets_extend(t: Tick, b: StepBudgets, ev: SpikeEvent, eid: int, n: nat)
    requires
        t.wheel.wf(),
        0 <= eid < t.edges.len(),
    ensures
        t.after_targets(b, ev, eid, n).extends(t),
        t.after_targets(b, ev, eid, n).edge_visits == t.edge_visits,
    decreases n,
{
    if n > 0 {
        let prev = t.after_targets(b, ev, eid, (n - 1) as nat);
        lemma_targets_extend(t, b, ev, eid, (n - 1) as nat);
        lemma_hit_target_extends(prev, b, ev, eid, n - 1);
        lemma_extends_chain(t, prev, prev.hit_target(b, ev, eid, n - 1));
    }
}

/// Visiting an edge keeps what a tick never touches.
pub proof fn lemma_visit_edge_extends(t: Tick, b: StepBudgets, ev: SpikeEvent, eid: u32)
    requires
        t.wheel.wf(),
    ensures
        t.visit_edge(b, ev, eid).extends(t),
{
    let counted = Tick { edge_visits: t.edge_visits + 1, ..t };
    if (eid as int) < t.edges.len() {
        lemma_targets_extend(counted, b, ev, eid as int, t.edges[eid as int].targets.len());
    }
    assert forall|j: int| 0 <= j < t.edges.len() implies (#[trigger] t.visit_edge(
        b,
        ev,
        eid,
    ).edges[j]).with_weight(t.edges[j].weight) == t.edges[j] by {}
}

/// Visiting the edges of a row keeps what a tick never touches.
pub proof fn lemma_row_extends(t: Tick, b: StepBudgets, ev: SpikeEvent, row: Seq<u32>, n: nat)
    requires
        t.wheel.wf(),
    ensures
        t.after_row(b, ev, row, n).extends(t),
    decreases n,
{
    if n > 0 {
        let prev = t.after_row(b, ev, row, (n - 1) as nat);
        lemma_row_extends(t, b, ev, row, (n - 1) as nat);
        lemma_visit_edge_extends(prev, b, ev, row[n - 1]);
        lemma_extends_chain(t, prev, prev.visit_edge(b, ev, row[n - 1]));
    } else {
        lemma_extends_self(t);
    }
}

/// Every state with a well-formed wheel extends itself.
pub proof fn lemma_extends_self(t: Tick)
    requires
        t.wheel.wf(),
    ensures
        t.extends(t),
{
}

/// Delivering an event keeps what a tick never touches.
pub proof fn lemma_event_extends(t: Tick, b: StepBudgets, ev: SpikeEvent, adjacency: Seq<Seq<u32>>)
    requires
        t.wheel.wf(),
    ensures
        t.deliver_event(b, ev, adjacency).extends(t),
{
    let noted = t.note_pre_spike(ev.neuron_id);
    if !t.halted && (ev.neuron_id as int) < adjacency.len() {
        let row = adjacency[ev.neuron_id as int];
        lemma_row_extends(noted, b, ev, row, row.len());
    }
    assert forall|j: int| 0 <= j < t.edges.len() implies (#[trigger] t.deliver_event(
        b,
        ev,
        adjacency,
    ).edges[j]).with_weight(t.edges[j].weight) == t.edges[j] by {}
}

/// Delivering events keeps what a tick never touches.
pub proof fn lemma_events_extend(
    t: Tick,
    b: StepBudgets,
    events: Seq<SpikeEvent>,
    adjacency: Seq<Seq<u32>>,
    n: nat,
)
    requires
        t.wheel.wf(),
    ensures
        t.after_events(b, events, adjacency, n).extends(t),
    decreases n,
{
    if n > 0 {
        let prev = t.after_events(b, events, adjacency, (n - 1) as nat);
        lemma_events_extend(t, b, events, adjacency, (n - 1) as nat);
        lemma_event_extends(prev, b, events[n - 1], adjacency);
        lemma_extends_chain(t, prev, prev.deliver_event(b, events[n - 1], adjacency));
    }
}

/// Once a tick has stopped, serving further targets changes nothing.
pub proof fn lemma_targets_stay_halted(
    t: Tick,
    b: StepBudgets,
    ev: SpikeEvent,
    eid: int,
    k: nat,
    n: nat,
)
    requires
        k <= n,
        t.after_targets(b, ev, eid, k).halted,
    ensures
        t.after_targets(b, ev, eid, n) == t.after_targets(b, ev, eid, k),
    decreases n,
{
    if n > k {
        lemma_targets_stay_halted(t, b, ev, eid, k, (n - 1) as nat);
    }
}

/// Once a tick has stopped, visiting further edges changes nothing.
pub proof fn lemma_row_stays_halted(
    t: Tick,
    b: StepBudgets,
    ev: SpikeEvent,
    row: Seq<u32>,
    k: nat,
    n: nat,
)
    requires
        k <= n,
        t.after_row(b, ev, row, k).halted,
    ensures
        t.after_row(b, ev, row, n) == t.after_row(b, ev, row, k),
    decreases n,
{
    if n > k {
        lemma_row_stays_halted(t, b, ev, row, k, (n - 1) as nat);
    }
}

/// Once a tick has stopped, delivering further events changes nothing.
pub proof fn lemma_events_stay_halted(
    t: Tick,
    b: StepBudgets,
    events: Seq<SpikeEvent>,
    adjacency: Seq<Seq<u32>>,
    k: nat,
    n: nat,
)
    requires
        k <= n,
        t.after_events(b, events, adjacency, k).halted,
    ensures
        t.after_events(b, events, adjacency, n) == t.after_events(b, events, adjacency, k),
    decreases n,
{
    if n > k {
        lemma_events_stay_halted(t, b, events, adjacency, k, (n - 1) as nat);
    }
}

/// Serves the targets of edge `eid` with the event `ev`, and reports whether
/// the spike budget stopped the tick. `spikes` counts the spikes scheduled
/// against a budget; without a budget nothing is counted.
pub(crate) fn deliver_targets(
    neurons: &mut Vec<Neuron>,
    edges: &mut Vec<HyperEdge>,
    queue: &mut TimeWheel,
    rule: &mut Option<QuantizedStdp>,
    budgets: StepBudgets,
    ev: SpikeEvent,
    eid: usize,
    spikes: &mut usize,
    Ghost(start): Ghost<Tick>,
) -> (halted: bool)
    requires
        old(queue).wf(),
        eid < old(edges)@.len(),
        !start.halted,
        start.reflects(old(neurons)@, old(edges)@, old(queue)@, *old(rule)),
        budgets.max_spikes_scheduled is Some ==> *old(spikes) == start.spikes,
    ensures
        final(queue).wf(),
        ({
            let end = start.after_targets(
                budgets,
                ev,
                eid as int,
                start.edges[eid as int].targets.len(),
            );
            &&& end.reflects(final(neurons)@, final(edges)@, final(queue)@, *final(rule))
            &&& halted == end.halted
            &&& budgets.max_spikes_scheduled is Some ==> *final(spikes) == end.spikes
        }),
{
    let n = edges[eid].targets.len();
    let at = ev.time.saturating_add(edges[eid].delay);
    let mut k: usize = 0;
    let mut halted = false;
    let ghost mut cur = start;
    proof {
        lemma_extends_self(start);
    }
    while k < n && !halted
        invariant
            k <= n,
            eid < edges@.len(),
            n == start.edges[eid as int].targets.len(),
            at == deliver_time(ev.time, start.edges[eid as int].delay),
            start.wheel.wf(),
            eid < start.edges.len(),
            queue.wf(),
            cur == start.after_targets(budgets, ev, eid as int, k as nat),
            cur.reflects(neurons@, edges@, queue@, *rule),
            cur.extends(start),
            halted == cur.halted,
            budgets.max_spikes_scheduled is Some ==> *spikes == cur.spikes,
        decreases n - k,
    {
        let ghost before = cur;
        assert(before.edges[eid as int] == edges@[eid as int]@);
        assert(before.edges[eid as int].with_weight(start.edges[eid as int].weight)
            == start.edges[eid as int]);
        let tgt = edges[eid].targets[k];
        let w = edges[eid].weight;
        let idx = tgt as usize;
        if idx < neurons.len() {
            let fired = neurons[idx].inject(w, at);
            if fired {
                let room = match budgets.max_spikes_scheduled {
                    Some(max) => *spikes < max,
                    None => true,
                };
                if room {
                    queue.schedule(SpikeEvent { neuron_id: tgt, time: at });
                    if budgets.max_spikes_scheduled.is_some() {
                        *spikes = *spikes + 1;
                    }
                    match &mut *rule {
                        Some(p) => {
                            p.on_post_spike(tgt, at);
                            let mut updated = w;
                            p.apply_edge(ev.neuron_id, tgt, &mut updated);
                            edges[eid].weight = updated;
                        },
                        None => {},
                    }
                } else {
                    halted = true;
                }
            }
        }
        proof {
            cur = before.hit_target(budgets, ev, eid as int, k as int);
            lemma_hit_target_extends(before, budgets, ev, eid as int, k as int);
            lemma_extends_chain(start, before, cur);
            assert(cur.neurons =~= neurons@);
            assert(cur.edges =~= edges_view(edges@));
        }
        k = k + 1;
    }
    proof {
        if halted {
            lemma_targets_stay_halted(start, budgets, ev, eid as int, k as nat, n as nat);
        }
    }
    halted
}

/// Without a spike budget, serving targets never stops a tick.
pub proof fn lemma_targets_without_spike_budget(
    t: Tick,
    b: StepBudgets,
    ev: SpikeEvent,
    eid: int,
    n: nat,
)
    requires
        b.max_spikes_scheduled is None,
    ensures
        t.after_targets(b, ev, eid, n).halted == t.halted,
    decreases n,
{
    if n > 0 {
        lemma_targets_without_spike_budget(t, b, ev, eid, (n - 1) as nat);
    }
}

/// Examining the edges of the table keeps what a tick never touches, and
/// never stops the tick.
pub proof fn lemma_scan_extends(t: Tick, ev: SpikeEvent, n: nat)
    requires
        t.wheel.wf(),
        n <= t.edges.len(),
    ensures
        t.after_scan(ev, n).extends(t),
        t.after_scan(ev, n).halted == t.halted,
    decreases n,
{
    if n > 0 {
        let prev = t.after_scan(ev, (n - 1) as nat);
        lemma_scan_extends(t, ev, (n - 1) as nat);
        let len = prev.edges[n - 1].targets.len();
        lemma_targets_extend(prev, StepBudgets::unbounded(), ev, n - 1, len);
        lemma_targets_without_spike_budget(prev, StepBudgets::unbounded(), ev, n - 1, len);
        lemma_extends_chain(t, prev, prev.scan_edge(ev, n - 1));
    }
}

/// Delivering events by scanning keeps what a tick never touches, and never
/// stops the tick.
pub proof fn lemma_scanned_events_extend(t: Tick, events: Seq<SpikeEvent>, n: nat)
    requires
        t.wheel.wf(),
    ensures
        t.after_scanned_events(events, n).extends(t),
        t.after_scanned_events(events, n).halted == t.halted,
    decreases n,
{
    if n > 0 {
        let prev = t.after_scanned_events(events, (n - 1) as nat);
        lemma_scanned_events_extend(t, events, (n - 1) as nat);
        lemma_scan_extends(prev, events[n - 1], prev.edges.len());
        lemma_extends_chain(t, prev, prev.after_scan(events[n - 1], prev.edges.len()));
    }
}

/// Serving the targets of an edge keeps the spike count within its budget,
/// and touches the wheel and the edge table only by scheduling a spike.
pub proof fn lemma_targets_keep_budget(t: Tick, b: StepBudgets, ev: SpikeEvent, eid: int, n: nat)
    requires
        t.wheel.wf(),
        0 <= eid < t.edges.len(),
        t.within(b),
    ensures
        t.after_targets(b, ev, eid, n).within(b),
        t.after_targets(b, ev, eid, n).quiet_since(t),
    decreases n,
{
    if n > 0 {
        let prev = t.after_targets(b, ev, eid, (n - 1) as nat);
        lemma_targets_keep_budget(t, b, ev, eid, (n - 1) as nat);
        lemma_targets_extend(t, b, ev, eid, (n - 1) as nat);
        lemma_hit_target_extends(prev, b, ev, eid, n - 1);
    }
}

/// Visiting an edge keeps both counters within their budgets, touches the
/// wheel and the edge table only by scheduling a spike, and touches nothing
/// but the rule unless the visit is counted.
pub proof fn lemma_visit_edge_keeps_budget(t: Tick, b: StepBudgets, ev: SpikeEvent, eid: u32)
    requires
        t.wheel.wf(),
        t.within(b),
    ensures
        t.visit_edge(b, ev, eid).within(b),
        t.visit_edge(b, ev, eid).quiet_since(t),
        t.visit_edge(b, ev, eid).idle_since(t),
{
    let counted = Tick { edge_visits: t.edge_visits + 1, ..t };
    if !t.halted && !(b.max_edge_visits matches Some(m) && t.edge_visits >= m) && (eid as int)
        < t.edges.len() {
        let len = t.edges[eid as int].targets.len();
        lemma_targets_keep_budget(counted, b, ev, eid as int, len);
        lemma_targets_extend(counted, b, ev, eid as int, len);
    }
}

/// Visiting the edges of a row keeps both counters within their budgets,
/// touches the wheel and the edge table only by scheduling a spike, and
/// touches nothing unless a visit is counted.
pub proof fn lemma_row_keeps_budget(t: Tick, b: StepBudgets, ev: SpikeEvent, row: Seq<u32>, n: nat)
    requires
        t.wheel.wf(),
        t.within(b),
    ensures
        t.after_row(b, ev, row, n).within(b),
        t.after_row(b, ev, row, n).quiet_since(t),
        t.after_row(b, ev, row, n).idle_since(t),
    decreases n,
{
    if n > 0 {
        let prev = t.after_row(b, ev, row, (n - 1) as nat);
        lemma_row_keeps_budget(t, b, ev, row, (n - 1) as nat);
        lemma_row_extends(t, b, ev, row, (n - 1) as nat);
        lemma_visit_edge_keeps_budget(prev, b, ev, row[n - 1]);
        lemma_visit_edge_extends(prev, b, ev, row[n - 1]);
    }
}

/// Delivering an event keeps both counters within their budgets, touches
/// the wheel and the edge table only by scheduling a spike, and touches
/// nothing but the rule unless a visit is counted.
pub proof fn lemma_event_keeps_budget(
    t: Tick,
    b: StepBudgets,
    ev: SpikeEvent,
    adjacency: Seq<Seq<u32>>,
)
    requires
        t.wheel.wf(),
        t.within(b),
    ensures
        t.deliver_event(b, ev, adjacency).within(b),
        t.deliver_event(b, ev, adjacency).quiet_since(t),
        t.deliver_event(b, ev, adjacency).idle_since(t),
{
    let told = t.note_pre_spike(ev.neuron_id);
    if !t.halted && (ev.neuron_id as int) < adjacency.len() {
        let row = adjacency[ev.neuron_id as int];
        lemma_row_keeps_budget(told, b, ev, row, row.len());
    }
}

/// Delivering events keeps both counters within their budgets, touches the
/// wheel and the edge table only by scheduling a spike, and touches nothing
/// but the rule unless a visit is counted.
pub proof fn lemma_events_keep_budget(
    t: Tick,
    b: StepBudgets,
    events: Seq<SpikeEvent>,
    adjacency: Seq<Seq<u32>>,
    n: nat,
)
    requires
        t.wheel.wf(),
        t.within(b),
    ensures
        t.after_events(b, events, adjacency, n).within(b),
        t.after_events(b, events, adjacency, n).quiet_since(t),
        t.after_events(b, events, adjacency, n).idle_since(t),
    decreases n,
{
    if n > 0 {
        let prev = t.after_events(b, events, adjacency, (n - 1) as nat);
        lemma_events_keep_budget(t, b, events, adjacency, (n - 1) as nat);
        lemma_events_extend(t, b, events, adjacency, (n - 1) as nat);
        lemma_event_keeps_budget(prev, b, events[n - 1], adjacency);
        lemma_event_extends(prev, b, events[n - 1], adjacency);
    }
}

/// Serving the targets of an edge keeps every weight within the bounds of
/// the installed rule.
pub proof fn lemma_targets_keep_weights_clamped(
    t: Tick,
    b: StepBudgets,
    ev: SpikeEvent,
    eid: int,
    n: nat,
)
    requires
        0 <= eid < t.edges.len(),
        t.weights_clamped(),
    ensures
        t.after_targets(b, ev, eid, n).weights_clamped(),
        t.after_targets(b, ev, eid, n).edges.len() == t.edges.len(),
    decreases n,
{
    if n > 0 {
        let prev = t.after_targets(b, ev, eid, (n - 1) as nat);
        lemma_targets_keep_weights_clamped(t, b, ev, eid, (n - 1) as nat);
        let now = prev.hit_target(b, ev, eid, n - 1);
        if prev.rule is Some {
            let r = prev.rule->0;
            let tgt = prev.edges[eid].targets[n - 1];
            lemma_weight_stays_clamped(
                r.post_spiked(tgt),
                ev.neuron_id,
                tgt,
                prev.edges[eid].weight,
            );
            assert forall|j: int| 0 <= j < now.edges.len() implies now.rule->0.w_min <= (
            #[trigger] now.edges[j]).weight <= now.rule->0.w_max by {
                if j != eid {
                    assert(now.edges[j] == prev.edges[j]);
                }
            }
        }
    }
}

/// Visiting the edges of a row keeps every weight within the bounds of the
/// installed rule.
pub proof fn lemma_row_keeps_weights_clamped(
    t: Tick,
    b: StepBudgets,
    ev: SpikeEvent,
    row: Seq<u32>,
    n: nat,
)
    requires
        t.weights_clamped(),
    ensures
        t.after_row(b, ev, row, n).weights_clamped(),
        t.after_row(b, ev, row, n).edges.len() == t.edges.len(),
    decreases n,
{
    if n > 0 {
        let prev = t.after_row(b, ev, row, (n - 1) as nat);
        lemma_row_keeps_weights_clamped(t, b, ev, row, (n - 1) as nat);
        let eid = row[n - 1];
        if (eid as int) < prev.edges.len() {
            let counted = Tick { edge_visits: prev.edge_visits + 1, ..prev };
            lemma_targets_keep_weights_clamped(
                counted,
                b,
                ev,
                eid as int,
                prev.edges[eid as int].targets.len(),
            );
        }
    }
}

/// Delivering events keeps every weight within the bounds of the installed
/// rule.
pub proof fn lemma_events_keep_weights_clamped(
    t: Tick,
    b: StepBudgets,
    events: Seq<SpikeEvent>,
    adjacency: Seq<Seq<u32>>,
    n: nat,
)
    requires
        t.weights_clamped(),
    ensures
        t.after_events(b, events, adjacency, n).weights_clamped(),
        t.after_events(b, events, adjacency, n).edges.len() == t.edges.len(),
    decreases n,
{
    if n > 0 {
        let prev = t.after_events(b, events, adjacency, (n - 1) as nat);
        lemma_events_keep_weights_clamped(t, b, events, adjacency, (n - 1) as nat);
        let ev = events[n - 1];
        let told = prev.note_pre_spike(ev.neuron_id);
        if !prev.halted && (ev.neuron_id as int) < adjacency.len() {
            let row = adjacency[ev.neuron_id as int];
            lemma_row_keeps_weights_clamped(told, b, ev, row, row.len());
        }
    }
}

/// Serving targets does not look at the count of edge visits.
pub proof fn lemma_targets_agree(a: Tick, c: Tick, b: StepBudgets, ev: SpikeEvent, eid: int, n: nat)
    requires
        a.agrees(c),
    ensures
        a.after_targets(b, ev, eid, n).agrees(c.after_targets(b, ev, eid, n)),
    decreases n,
{
    if n > 0 {
        lemma_targets_agree(a, c, b, ev, eid, (n - 1) as nat);
    }
}

/// Visiting the first `n` edges of a row looks only at those `n` entries.
pub proof fn lemma_row_prefix(
    t: Tick,
    b: StepBudgets,
    ev: SpikeEvent,
    row: Seq<u32>,
    other: Seq<u32>,
    n: nat,
)
    requires
        n <= row.len(),
        n <= other.len(),
        forall|i: int| 0 <= i < n ==> row[i] == other[i],
    ensures
        t.after_row(b, ev, row, n) == t.after_row(b, ev, other, n),
    decreases n,
{
    if n > 0 {
        lemma_row_prefix(t, b, ev, row, other, (n - 1) as nat);
    }
}

/// Without budgets, examining the first `n` edges of the table on behalf of
/// an event does what visiting, in table order, those of them that have the
/// neuron of the event among their sources does.
pub proof fn lemma_scan_is_row(a: Tick, c: Tick, ev: SpikeEvent, n: nat)
    requires
        a.agrees(c),
        !a.halted,
        a.wheel.wf(),
        n <= a.edges.len(),
        a.edges.len() <= u32::MAX + 1,
    ensures
        ({
            let row = outgoing_of(a.edges, ev.neuron_id as int, n);
            a.after_scan(ev, n).agrees(c.after_row(StepBudgets::unbounded(), ev, row, row.len()))
        }),
    decreases n,
{
    if n > 0 {
        let unb = StepBudgets::unbounded();
        let s = ev.neuron_id as int;
        let m = (n - 1) as nat;
        let before = outgoing_of(a.edges, s, m);
        let row = outgoing_of(a.edges, s, n);
        let prev_a = a.after_scan(ev, m);
        let prev_c = c.after_row(unb, ev, before, before.len());
        lemma_scan_is_row(a, c, ev, m);
        lemma_scan_extends(a, ev, m);
        assert(prev_a.edges[n - 1].with_weight(a.edges[n - 1].weight) == a.edges[n - 1]);
        lemma_same_sources(prev_a.edges[n - 1], a.edges[n - 1], s);
        if a.edges[n - 1].has_source(s) {
            assert(row == before.push((n - 1) as u32));
            lemma_row_prefix(c, unb, ev, row, before, before.len());
            let counted = Tick { edge_visits: prev_c.edge_visits + 1, ..prev_c };
            lemma_targets_agree(prev_a, counted, unb, ev, n - 1, prev_a.edges[n - 1].targets.len());
            assert(c.after_row(unb, ev, row, row.len()) == prev_c.visit_edge(
                unb,
                ev,
                (n - 1) as u32,
            ));
        }
    }
}

/// Without budgets and without a rule, delivering events by scanning the
/// edge table does what delivering them along an index in order does.
pub proof fn lemma_scanned_events_are_indexed_events(
    a: Tick,
    c: Tick,
    events: Seq<SpikeEvent>,
    adjacency: Seq<Seq<u32>>,
    n: nat,
)
    requires
        a.agrees(c),
        !a.halted,
        a.rule is None,
        a.wheel.wf(),
        a.edges.len() <= u32::MAX + 1,
        adjacency_in_order(adjacency, a.edges),
    ensures
        a.after_scanned_events(events, n).agrees(
            c.after_events(StepBudgets::unbounded(), events, adjacency, n),
        ),
    decreases n,
{
    if n > 0 {
        let unb = StepBudgets::unbounded();
        let m = (n - 1) as nat;
        let ev = events[n - 1];
        let s = ev.neuron_id as int;
        let prev_a = a.after_scanned_events(events, m);
        let prev_c = c.after_events(unb, events, adjacency, m);
        lemma_scanned_events_are_indexed_events(a, c, events, adjacency, m);
        lemma_scanned_events_extend(a, events, m);
        assert forall|j: int| 0 <= j < a.edges.len() implies (#[trigger] prev_a.edges[j]).sources
            == a.edges[j].sources by {
            assert(prev_a.edges[j].with_weight(a.edges[j].weight) == a.edges[j]);
        }
        lemma_outgoing_depends_on_sources(prev_a.edges, a.edges, s, a.edges.len());
        assert(row_at(adjacency, s) == outgoing_of(a.edges, s, a.edges.len()));
        lemma_scan_is_row(prev_a, prev_c, ev, prev_a.edges.len());
        assert(prev_c.note_pre_spike(ev.neuron_id) == prev_c);
    }
}

} // verus!
