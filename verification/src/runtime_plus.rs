//! The extended runtime: the plain runtime with an adjacency index from
//! source neurons to their outgoing edges, optional per-tick budgets, and an
//! optional plasticity rule.
//!
//! A budget that trips truncates the tick. Injections and spikes that were
//! already made stay; events and edges that were not yet visited are dropped
//! and are not retried by later ticks.
//!
//! An edge with delay 0 delivers into the tick that is being processed. The
//! wheel has already moved past that slot, so a spike that such a delivery
//! induces is handed out one full revolution of the wheel later.

use vstd::prelude::*;
use crate::adjacency::{
    adjacency_consistent, adjacency_in_order, adjacency_of, edge_ids_match, empty_rows, grow_rows,
    lemma_ids_bound_table, lemma_link_keeps_consistent, lemma_link_keeps_order,
    lemma_link_sources_all, lemma_outgoing_depends_on_sources, lemma_rebuilt_is_in_order,
    lemma_row_keeps_consistent, lemma_row_keeps_order, link_edge, link_edges, link_sources,
    outgoing_of, row_at, rows_after_link, rows_view, with_row,
};
use crate::delivery::{
    deliver_targets, lemma_events_extend, lemma_events_keep_budget,
    lemma_events_keep_weights_clamped, lemma_events_stay_halted,
    lemma_extends_chain, lemma_scanned_events_are_indexed_events,
    lemma_extends_self, lemma_row_stays_halted, lemma_targets_extend, lemma_visit_edge_extends,
    rule_view, StepBudgets, Tick,
};
use crate::error::EmbeddedError;
use crate::event_queue::{lemma_advance_keeps_wf, SpikeEvent, TimeWheel, WheelView};
use crate::fixed::Fixed;
use crate::hypergraph::{edges_view, EdgeView, HyperEdge};
use crate::neuron::Neuron;
use crate::plasticity::{PlasticityRule, QuantizedStdp, StdpView};
use crate::runtime::{NetView, SnnRuntime};

verus! {

/// Mathematical model of the extended runtime.
pub struct PlusView {
    pub neurons: Seq<Neuron>,
    pub edges: Seq<EdgeView>,
    pub wheel: WheelView,
    /// For each source neuron, the ids of its outgoing edges.
    pub adjacency: Seq<Seq<u32>>,
    /// The installed rule, if any.
    pub rule: Option<StdpView>,
}

impl PlusView {
    /// The rule after the decay that opens a tick.
    pub open spec fn decayed_rule(self) -> Option<StdpView> {
        match self.rule {
            Some(r) => Some(r.decayed()),
            None => None,
        }
    }

    /// The state in which the delivery of a tick starts: the rule has
    /// decayed, the events of the current slot are taken out, the wheel has
    /// advanced, nothing was delivered yet.
    pub open spec fn start_tick(self) -> Tick {
        Tick {
            neurons: self.neurons,
            edges: self.edges,
            wheel: self.wheel.advance(),
            rule: self.decayed_rule(),
            edge_visits: 0,
            spikes: 0,
            halted: false,
        }
    }

    /// The state in which the delivery of a tick under the budgets `b` ends.
    pub open spec fn tick(self, b: StepBudgets) -> Tick {
        let due = self.wheel.due();
        self.start_tick().after_events(b, due, self.adjacency, due.len())
    }

    /// The runtime after one tick under the budgets `b`.
    pub open spec fn step(self, b: StepBudgets) -> PlusView {
        let end = self.tick(b);
        PlusView {
            neurons: end.neurons,
            edges: end.edges,
            wheel: end.wheel,
            adjacency: self.adjacency,
            rule: end.rule,
        }
    }

    /// The runtime after `n` ticks without budgets.
    pub open spec fn after_steps(self, n: nat) -> PlusView
        decreases n,
    {
        if n == 0 {
            self
        } else {
            self.after_steps((n - 1) as nat).step(StepBudgets::unbounded())
        }
    }

    /// The number of ticks that it takes to bring the current tick past
    /// `until`.
    pub open spec fn steps_until(self, until: u64) -> nat {
        if self.wheel.current_time <= until {
            (until - self.wheel.current_time + 1) as nat
        } else {
            0
        }
    }

    /// The runtime with one more neuron, at rest, whose id is its index, and
    /// with an adjacency row for it.
    pub open spec fn with_neuron(self, threshold: Fixed) -> PlusView {
        let id = self.neurons.len() as u32;
        PlusView {
            neurons: self.neurons.push(
                Neuron { id, membrane: 0, threshold, refractory_until: 0 },
            ),
            adjacency: with_row(self.adjacency, id),
            ..self
        }
    }

    /// The runtime with one more edge, whose id is its index, linked once in
    /// the adjacency row of each neuron that it has among its sources.
    pub open spec fn with_edge(
        self,
        sources: Seq<u32>,
        targets: Seq<u32>,
        weight: Fixed,
        delay: u64,
    ) -> PlusView {
        let id = self.edges.len() as u32;
        PlusView {
            edges: self.edges.push(EdgeView { id, sources, targets, weight, delay }),
            adjacency: link_sources(self.adjacency, sources, id, sources.len()),
            ..self
        }
    }

    /// The runtime with its adjacency index built from scratch: one row per
    /// neuron to start with, then every edge linked in table order.
    pub open spec fn rebuilt(self) -> PlusView {
        PlusView { adjacency: adjacency_of(self.edges, self.neurons.len()), ..self }
    }

    /// Where a rule is installed, its bounds are ordered and every weight of
    /// the edge table lies within them.
    pub open spec fn weights_clamped(self) -> bool {
        self.rule matches Some(r) ==> {
            &&& r.ordered()
            &&& forall|j: int|
                0 <= j < self.edges.len() ==> r.w_min <= (#[trigger] self.edges[j]).weight <= r.w_max
        }
    }

    /// The network of the runtime: its neurons, its edges and its wheel.
    pub open spec fn net(self) -> NetView {
        NetView { neurons: self.neurons, edges: self.edges, wheel: self.wheel }
    }

    /// The adjacency index is in order: the row of every neuron lists, in
    /// table order and once each, the edges that have the neuron among
    /// their sources.
    pub open spec fn in_order(self) -> bool {
        self.edges.len() <= u32::MAX + 1 && adjacency_in_order(self.adjacency, self.edges)
    }

    /// Every neuron and every edge has its index as its id.
    pub open spec fn ids_match(self) -> bool {
        &&& forall|i: int| 0 <= i < self.neurons.len() ==> (#[trigger] self.neurons[i]).id == i
        &&& edge_ids_match(self.edges)
    }

    /// The adjacency index is consistent with the edge table, whose ids are
    /// the indices.
    pub open spec fn indexed(self) -> bool {
        edge_ids_match(self.edges) && adjacency_consistent(self.adjacency, self.edges)
    }
}

/// A runtime with an adjacency index, budgets and optional plasticity.
pub struct SnnRuntimePlus {
    pub inner: SnnRuntime,
    source_to_edges: Vec<Vec<u32>>,
    plasticity: Option<QuantizedStdp>,
}

impl View for SnnRuntimePlus {
    type V = PlusView;

    open spec fn view(&self) -> PlusView {
        PlusView {
            neurons: self.neuron_table()@,
            edges: edges_view(self.edge_table()@),
            wheel: self.wheel()@,
            adjacency: self.adjacency(),
            rule: self.rule(),
        }
    }
}

impl SnnRuntimePlus {
    /// The neuron table.
    pub closed spec fn neuron_table(&self) -> Vec<Neuron> {
        self.inner.neurons
    }

    /// The edge table.
    pub closed spec fn edge_table(&self) -> Vec<HyperEdge> {
        self.inner.edges
    }

    /// The time wheel.
    pub closed spec fn wheel(&self) -> TimeWheel {
        self.inner.queue
    }

    /// The adjacency index.
    pub closed spec fn adjacency(&self) -> Seq<Seq<u32>> {
        rows_view(self.source_to_edges@)
    }

    /// The model of the installed rule, if any.
    pub closed spec fn rule(&self) -> Option<StdpView> {
        rule_view(self.plasticity)
    }

    /// The runtime can be stepped: its wheel is usable.
    pub open spec fn wf(&self) -> bool {
        self.wheel().wf()
    }

    /// Creates an empty network over a wheel of `wheel_size` slots, without
    /// a rule. A wheel without slots is rejected.
    pub fn new(wheel_size: u64) -> (r: Result<SnnRuntimePlus, EmbeddedError>)
        ensures
            wheel_size == 0 <==> r is Err,
            r matches Err(e) ==> e == EmbeddedError::InvalidInput("wheel_size must be at least 1"),
            r matches Ok(rt) ==> {
                &&& rt.wf()
                &&& rt@.ids_match()
                &&& rt@.indexed()
                &&& rt@.in_order()
                &&& rt@.neurons.len() == 0
                &&& rt@.edges.len() == 0
                &&& rt@.adjacency.len() == 0
                &&& rt@.rule is None
                &&& rt@.wheel.current_time == 0
                &&& rt@.wheel.slots.len() == wheel_size
                &&& forall|k: int|
                    0 <= k < wheel_size ==> #[trigger] rt@.wheel.slots[k] == Seq::<
                        SpikeEvent,
                    >::empty()
            },
    {
        match SnnRuntime::new(wheel_size) {
            Ok(inner) => {
                let rt = SnnRuntimePlus { inner, source_to_edges: Vec::new(), plasticity: None };
                assert(rt@.adjacency =~= Seq::<Seq<u32>>::empty());
                Ok(rt)
            },
            Err(e) => Err(e),
        }
    }

    /// Wraps a network that was put together elsewhere, and builds its
    /// adjacency index from scratch. Where the ids of the edge table are the
    /// indices, the index is in order and consistent with the table.
    pub fn from_inner(inner: SnnRuntime) -> (rt: SnnRuntimePlus)
        ensures
            rt.wheel() == inner.queue,
            rt@ == (PlusView {
                neurons: inner@.neurons,
                edges: inner@.edges,
                wheel: inner@.wheel,
                adjacency: adjacency_of(inner@.edges, inner@.neurons.len()),
                rule: None,
            }),
            edge_ids_match(inner@.edges) ==> rt@.in_order() && rt@.indexed(),
    {
        let mut me = SnnRuntimePlus { inner, source_to_edges: Vec::new(), plasticity: None };
        me.rebuild_adjacency();
        me
    }

    /// Makes sure that the adjacency index has a row for neuron `id`.
    fn ensure_neuron_capacity(&mut self, id: u32)
        ensures
            final(self).inner == old(self).inner,
            final(self).plasticity == old(self).plasticity,
            final(self).adjacency() == with_row(old(self).adjacency(), id),
    {
        grow_rows(&mut self.source_to_edges, id);
    }

    /// Builds the adjacency index from scratch: one row per neuron to start
    /// with, then every edge linked under its id in the row of each of its
    /// sources, in table order. A source that an edge names more than once
    /// is linked once, and a source without a row gets one. Where the ids of
    /// the edge table are the indices, the index that results is in order
    /// and consistent with the table.
    pub fn rebuild_adjacency(&mut self)
        ensures
            final(self).wheel() == old(self).wheel(),
            final(self).neuron_table() == old(self).neuron_table(),
            final(self).edge_table() == old(self).edge_table(),
            final(self)@ == old(self)@.rebuilt(),
            edge_ids_match(old(self)@.edges) ==> final(self)@.in_order() && final(self)@.indexed(),
    {
        let rows = self.inner.neurons.len();
        let mut adj: Vec<Vec<u32>> = Vec::new();
        while adj.len() < rows
            invariant
                adj@.len() <= rows,
                forall|i: int| 0 <= i < adj@.len() ==> (#[trigger] adj@[i])@ == Seq::<u32>::empty(),
            decreases rows - adj@.len(),
        {
            adj.push(Vec::new());
        }
        assert(rows_view(adj@) =~= empty_rows(rows as nat));
        let ghost table = edges_view(self.inner.edges@);
        let ghost blank = empty_rows(rows as nat);
        let edge_count = self.inner.edges.len();
        let mut j: usize = 0;
        while j < edge_count
            invariant
                j <= edge_count,
                edge_count == self.inner.edges@.len(),
                table == edges_view(self.inner.edges@),
                self.inner == old(self).inner,
                self.plasticity == old(self).plasticity,
                rows_view(adj@) == link_edges(blank, table, j as nat),
            decreases edge_count - j,
        {
            assert(table[j as int] == self.inner.edges@[j as int]@);
            link_edge(&mut adj, &self.inner.edges[j].sources, self.inner.edges[j].id);
            j = j + 1;
        }
        self.source_to_edges = adj;
        proof {
            if edge_ids_match(table) {
                lemma_rebuilt_is_in_order(table, rows as nat);
                lemma_ids_bound_table(table);
            }
        }
    }

    /// Appends a resting neuron with the given threshold, gives it an
    /// adjacency row, and returns its id, which is its index in the neuron
    /// table.
    pub fn add_neuron(&mut self, threshold: Fixed) -> (id: u32)
        requires
            old(self)@.neurons.len() <= u32::MAX,
        ensures
            id == old(self)@.neurons.len(),
            final(self).wheel() == old(self).wheel(),
            final(self)@ == old(self)@.with_neuron(threshold),
            old(self)@.ids_match() ==> final(self)@.ids_match(),
            old(self)@.indexed() ==> final(self)@.indexed(),
            old(self)@.in_order() ==> final(self)@.in_order(),
    {
        let id = self.inner.add_neuron(threshold);
        self.ensure_neuron_capacity(id);
        proof {
            if old(self)@.indexed() {
                lemma_row_keeps_consistent(old(self)@.adjacency, old(self)@.edges, id);
            }
            if old(self)@.in_order() {
                lemma_row_keeps_order(old(self)@.adjacency, old(self)@.edges, id);
            }
        }
        id
    }

    /// Appends an edge and returns its id, which is its index in the edge
    /// table. The id is appended once to the adjacency row of each neuron
    /// that the edge has among its sources, however often the source list
    /// names it; a row is created where a source has none; every other row
    /// stays as it was. An edge without sources or without targets is
    /// rejected, and the runtime stays as it was.
    pub fn add_edge(&mut self, sources: Vec<u32>, targets: Vec<u32>, weight: Fixed, delay: u64) -> (r:
        Result<u32, EmbeddedError>)
        requires
            old(self)@.edges.len() <= u32::MAX,
        ensures
            sources@.len() == 0 || targets@.len() == 0 <==> r is Err,
            final(self).wheel() == old(self).wheel(),
            r matches Err(e) ==> {
                &&& e == EmbeddedError::InvalidInput("an edge needs a source and a target")
                &&& final(self)@ == old(self)@
            },
            r matches Ok(id) ==> {
                &&& id == old(self)@.edges.len()
                &&& final(self)@ == old(self)@.with_edge(sources@, targets@, weight, delay)
                &&& rows_after_link(old(self)@.adjacency, final(self)@.adjacency, sources@, id)
                &&& forall|i: int|
                    0 <= i < sources@.len() ==> (#[trigger] sources@[i])
                        < final(self)@.adjacency.len()
                &&& old(self)@.ids_match() ==> final(self)@.ids_match()
                &&& old(self)@.indexed() ==> final(self)@.indexed()
                &&& old(self)@.in_order() ==> final(self)@.in_order()
            },
    {
        let ghost src = sources@;
        let ghost tgt = targets@;
        match self.inner.add_edge(sources, targets, weight, delay) {
            Err(e) => Err(e),
            Ok(id) => {
                let slot = id as usize;
                assert(edges_view(self.inner.edges@).len() == self.inner.edges@.len());
                assert(edges_view(self.inner.edges@)[slot as int] == self.inner.edges@[slot as int]@);
                link_edge(&mut self.source_to_edges, &self.inner.edges[slot].sources, id);
                proof {
                    let edge = EdgeView { id, sources: src, targets: tgt, weight, delay };
                    lemma_link_sources_all(old(self)@.adjacency, src, id);
                    if old(self)@.indexed() {
                        lemma_link_keeps_consistent(old(self)@.adjacency, old(self)@.edges, edge);
                    }
                    if old(self)@.in_order() {
                        lemma_link_keeps_order(old(self)@.adjacency, old(self)@.edges, edge);
                    }
                }
                Ok(id)
            },
        }
    }

    /// The ids of the outgoing edges of `neuron`, in the order in which the
    /// index holds them. A neuron without a row has none.
    pub fn outgoing(&self, neuron: u32) -> (ids: Vec<u32>)
        ensures
            ids@ == row_at(self@.adjacency, neuron as int),
    {
        let mut ids: Vec<u32> = Vec::new();
        let src = neuron as usize;
        if src < self.source_to_edges.len() {
            let n = self.source_to_edges[src].len();
            let mut j: usize = 0;
            while j < n
                invariant
                    j <= n,
                    src < self.source_to_edges@.len(),
                    n == self.source_to_edges@[src as int]@.len(),
                    ids@ == self.source_to_edges@[src as int]@.take(j as int),
                decreases n - j,
            {
                ids.push(self.source_to_edges[src][j]);
                assert(self.source_to_edges@[src as int]@.take(j + 1)
                    =~= self.source_to_edges@[src as int]@.take(j as int).push(
                    self.source_to_edges@[src as int]@[j as int],
                ));
                j = j + 1;
            }
            assert(self.source_to_edges@[src as int]@.take(n as int)
                =~= self.source_to_edges@[src as int]@);
            assert(self.adjacency()[src as int] == self.source_to_edges@[src as int]@);
        }
        ids
    }

    /// The time wheel, for seeding spikes from outside.
    pub fn queue(&mut self) -> (q: &mut TimeWheel)
        ensures
            *q == old(self).wheel(),
            final(self).wheel() == *final(q),
            final(self).neuron_table() == old(self).neuron_table(),
            final(self).edge_table() == old(self).edge_table(),
            final(self).adjacency() == old(self).adjacency(),
            final(self).rule() == old(self).rule(),
    {
        &mut self.inner.queue
    }

    /// The neuron table.
    pub fn neurons(&self) -> (table: &Vec<Neuron>)
        ensures
            *table == self.neuron_table(),
    {
        &self.inner.neurons
    }

    /// The neuron table, for changes from outside.
    pub fn neurons_mut(&mut self) -> (table: &mut Vec<Neuron>)
        ensures
            *table == old(self).neuron_table(),
            final(self).neuron_table() == *final(table),
            final(self).wheel() == old(self).wheel(),
            final(self).edge_table() == old(self).edge_table(),
            final(self).adjacency() == old(self).adjacency(),
            final(self).rule() == old(self).rule(),
    {
        &mut self.inner.neurons
    }

    /// The edge table.
    pub fn edges(&self) -> (table: &Vec<HyperEdge>)
        ensures
            *table == self.edge_table(),
    {
        &self.inner.edges
    }

    /// The edge table, for changes from outside. The adjacency index does
    /// not follow such changes by itself.
    pub fn edges_mut(&mut self) -> (table: &mut Vec<HyperEdge>)
        ensures
            *table == old(self).edge_table(),
            final(self).edge_table() == *final(table),
            final(self).wheel() == old(self).wheel(),
            final(self).neuron_table() == old(self).neuron_table(),
            final(self).adjacency() == old(self).adjacency(),
            final(self).rule() == old(self).rule(),
    {
        &mut self.inner.edges
    }

    /// Installs `rule` as the one plasticity rule of the runtime. A rule
    /// that was installed before is discarded. The set of rules is closed:
    /// the runtime holds the quantized rule by value and calls its hooks
    /// without indirection.
    pub fn set_plasticity(&mut self, rule: QuantizedStdp)
        ensures
            final(self).wheel() == old(self).wheel(),
            final(self)@ == (PlusView { rule: Some(rule@), ..old(self)@ }),
    {
        self.plasticity = Some(rule);
    }

    /// Advances the simulation by one tick under the given budgets and
    /// returns the spikes of that tick: the events that the wheel held for
    /// it, in insertion order, whether or not a budget cut their delivery
    /// short.
    pub fn step_once_with_budgets(&mut self, budgets: StepBudgets) -> (events: Vec<SpikeEvent>)
        requires
            old(self).wf(),
        ensures
            final(self).wf(),
            events@ == old(self)@.wheel.due(),
            final(self)@ == old(self)@.step(budgets),
    {
        let mut edge_visits: usize = 0;
        let mut spikes_scheduled: usize = 0;

        match &mut self.plasticity {
            Some(p) => {
                p.decay();
            },
            None => {},
        }

        let events = self.inner.queue.next();

        let ghost start = old(self)@.start_tick();
        let ghost adjacency = old(self)@.adjacency;
        let ghost mut cur = start;
        proof {
            lemma_advance_keeps_wf(old(self)@.wheel);
            lemma_extends_self(start);
        }
        let mut halted = false;
        let mut i: usize = 0;
        while i < events.len() && !halted
            invariant
                i <= events@.len(),
                self.inner.queue.wf(),
                start.wheel.wf(),
                rows_view(self.source_to_edges@) == adjacency,
                cur == start.after_events(budgets, events@, adjacency, i as nat),
                cur.reflects(
                    self.inner.neurons@,
                    self.inner.edges@,
                    self.inner.queue@,
                    self.plasticity,
                ),
                cur.extends(start),
                halted == cur.halted,
                budgets.max_edge_visits is Some ==> edge_visits == cur.edge_visits,
                budgets.max_spikes_scheduled is Some ==> spikes_scheduled == cur.spikes,
            decreases events@.len() - i,
        {
            let ev = events[i];
            let ghost at_event = cur;

            match &mut self.plasticity {
                Some(p) => {
                    p.on_pre_spike(ev.neuron_id, ev.time);
                },
                None => {},
            }
            let ghost told = at_event.note_pre_spike(ev.neuron_id);
            proof {
                cur = told;
                lemma_extends_self(told);
            }

            let src = ev.neuron_id as usize;
            if src < self.source_to_edges.len() {
                let row_len = self.source_to_edges[src].len();
                let ghost row = adjacency[src as int];
                let mut j: usize = 0;
                while j < row_len && !halted
                    invariant
                        j <= row_len,
                        src < self.source_to_edges@.len(),
                        row_len == row.len(),
                        row == adjacency[src as int],
                        rows_view(self.source_to_edges@) == adjacency,
                        self.inner.queue.wf(),
                        told.wheel.wf(),
                        cur == told.after_row(budgets, ev, row, j as nat),
                        cur.reflects(
                            self.inner.neurons@,
                            self.inner.edges@,
                            self.inner.queue@,
                            self.plasticity,
                        ),
                        cur.extends(told),
                        halted == cur.halted,
                        budgets.max_edge_visits is Some ==> edge_visits == cur.edge_visits,
                        budgets.max_spikes_scheduled is Some ==> spikes_scheduled == cur.spikes,
                    decreases row_len - j,
                {
                    let ghost before = cur;
                    assert(rows_view(self.source_to_edges@)[src as int]
                        == self.source_to_edges@[src as int]@);
                    let eid = self.source_to_edges[src][j];
                    let room = match budgets.max_edge_visits {
                        Some(max_visits) => edge_visits < max_visits,
                        None => true,
                    };
                    if room {
                        if budgets.max_edge_visits.is_some() {
                            edge_visits = edge_visits + 1;
                        }
                        let ghost counted = Tick { edge_visits: before.edge_visits + 1, ..before };
                        if (eid as usize) < self.inner.edges.len() {
                            halted =
                            deliver_targets(
                                &mut self.inner.neurons,
                                &mut self.inner.edges,
                                &mut self.inner.queue,
                                &mut self.plasticity,
                                budgets,
                                ev,
                                eid as usize,
                                &mut spikes_scheduled,
                                Ghost(counted),
                            );
                        }
                    } else {
                        halted = true;
                    }
                    proof {
                        cur = before.visit_edge(budgets, ev, eid);
                        if room && (eid as int) < before.edges.len() {
                            lemma_targets_extend(
                                Tick { edge_visits: before.edge_visits + 1, ..before },
                                budgets,
                                ev,
                                eid as int,
                                before.edges[eid as int].targets.len(),
                            );
                        }
                        lemma_visit_edge_extends(before, budgets, ev, eid);
                        lemma_extends_chain(told, before, cur);
                    }
                    j = j + 1;
                }
                proof {
                    if halted {
                        lemma_row_stays_halted(told, budgets, ev, row, j as nat, row_len as nat);
                    }
                }
            }
            proof {
                assert(cur == at_event.deliver_event(budgets, ev, adjacency));
                lemma_extends_chain(at_event, told, cur);
                lemma_extends_chain(start, at_event, cur);
            }
            i = i + 1;
        }
        proof {
            if halted {
                lemma_events_stay_halted(
                    start,
                    budgets,
                    events@,
                    adjacency,
                    i as nat,
                    events@.len(),
                );
            }
        }
        events
    }

    /// Advances the simulation by one tick without budgets and returns the
    /// spikes of that tick.
    pub fn step_once(&mut self) -> (events: Vec<SpikeEvent>)
        requires
            old(self).wf(),
        ensures
            final(self).wf(),
            events@ == old(self)@.wheel.due(),
            final(self)@ == old(self)@.step(StepBudgets::unbounded()),
    {
        self.step_once_with_budgets(StepBudgets::default())
    }

    /// Steps, without budgets, until the current tick has passed `until`.
    /// The last representable tick cannot be passed, so `until` stays below
    /// it.
    pub fn run_until(&mut self, until: u64)
        requires
            old(self).wf(),
            until < u64::MAX,
        ensures
            final(self).wf(),
            final(self)@ == old(self)@.after_steps(old(self)@.steps_until(until)),
    {
        let ghost start = self@;
        let ghost mut done: nat = 0;
        while self.inner.queue.now() <= until
            invariant
                until < u64::MAX,
                self.wf(),
                self@ == start.after_steps(done),
                start.wheel.current_time > until ==> done == 0,
                start.wheel.current_time <= until ==> {
                    &&& self@.wheel.current_time == start.wheel.current_time + done
                    &&& self@.wheel.current_time <= until + 1
                },
            decreases until + 1 - self@.wheel.current_time,
        {
            let ghost before = self@;
            let _ = self.step_once();
            proof {
                lemma_step_advances_time(before, StepBudgets::unbounded());
                done = done + 1;
            }
        }
    }

    /// Steps, without budgets, until the current tick has passed its present
    /// value plus `ticks`: `ticks + 1` steps. The sum stays below the last
    /// representable tick, which cannot be passed.
    pub fn run_ticks(&mut self, ticks: u64)
        requires
            old(self).wf(),
            old(self)@.wheel.current_time + ticks < u64::MAX,
        ensures
            final(self).wf(),
            final(self)@ == old(self)@.after_steps((ticks + 1) as nat),
    {
        let until = self.inner.queue.now().saturating_add(ticks);
        self.run_until(until);
    }
}

/// One tick, whatever the budgets, moves the current tick forward by exactly
/// one (the last representable tick stays), keeps the wheel well formed with
/// every event in the slot of its time, and keeps the number of neurons, the
/// wiring of the edges and the adjacency index.
pub proof fn lemma_step_advances_time(rt: PlusView, b: StepBudgets)
    requires
        rt.wheel.wf(),
    ensures
        rt.step(b).wheel.wf(),
        rt.step(b).wheel.current_time == WheelView::tick_after(rt.wheel.current_time),
        rt.step(b).wheel.slots.len() == rt.wheel.slots.len(),
        rt.step(b).neurons.len() == rt.neurons.len(),
        rt.step(b).edges.len() == rt.edges.len(),
        rt.step(b).adjacency == rt.adjacency,
{
    lemma_advance_keeps_wf(rt.wheel);
    let due = rt.wheel.due();
    lemma_events_extend(rt.start_tick(), b, due, rt.adjacency, due.len());
}

/// One tick, whatever the budgets and the rule, keeps every neuron and every
/// edge under the id that is its index, keeps a consistent adjacency index
/// consistent, and keeps an index in order in order.
pub proof fn lemma_step_keeps_ids(rt: PlusView, b: StepBudgets)
    requires
        rt.wheel.wf(),
    ensures
        rt.ids_match() ==> rt.step(b).ids_match(),
        rt.indexed() ==> rt.step(b).indexed(),
        rt.in_order() ==> rt.step(b).in_order(),
{
    lemma_advance_keeps_wf(rt.wheel);
    let due = rt.wheel.due();
    lemma_events_extend(rt.start_tick(), b, due, rt.adjacency, due.len());
    let after = rt.step(b);
    if rt.indexed() {
        assert forall|s: int, eid: u32| #[trigger]
            row_at(after.adjacency, s).contains(eid) <==> (eid as int) < after.edges.len()
                && after.edges[eid as int].has_source(s) by {
            assert(row_at(rt.adjacency, s).contains(eid) <==> (eid as int) < rt.edges.len()
                && rt.edges[eid as int].has_source(s));
            if (eid as int) < rt.edges.len() {
                assert(after.edges[eid as int].with_weight(rt.edges[eid as int].weight)
                    == rt.edges[eid as int]);
                assert(after.edges[eid as int].sources == rt.edges[eid as int].sources);
            }
        }
    }
    if rt.in_order() {
        assert forall|j: int| 0 <= j < rt.edges.len() implies (#[trigger] rt.edges[j]).sources
            == after.edges[j].sources by {
            assert(after.edges[j].with_weight(rt.edges[j].weight) == rt.edges[j]);
        }
        assert forall|s: int| #[trigger]
            row_at(after.adjacency, s) == outgoing_of(after.edges, s, after.edges.len()) by {
            lemma_outgoing_depends_on_sources(rt.edges, after.edges, s, rt.edges.len());
            assert(row_at(rt.adjacency, s) == outgoing_of(rt.edges, s, rt.edges.len()));
        }
    }
}

/// After `n` ticks the current tick is the initial one plus `n`, held at
/// the last representable tick.
pub proof fn lemma_steps_advance_time(rt: PlusView, n: nat)
    requires
        rt.wheel.wf(),
    ensures
        rt.after_steps(n).wheel.wf(),
        rt.after_steps(n).wheel.current_time == if rt.wheel.current_time + n > u64::MAX {
            u64::MAX as int
        } else {
            rt.wheel.current_time + n
        },
    decreases n,
{
    if n > 0 {
        lemma_steps_advance_time(rt, (n - 1) as nat);
        lemma_step_advances_time(rt.after_steps((n - 1) as nat), StepBudgets::unbounded());
    }
}

/// Building the index twice gives what building it once gives.
pub proof fn lemma_rebuild_is_idempotent(rt: PlusView)
    ensures
        rt.rebuilt().rebuilt() == rt.rebuilt(),
{
}

/// An index built from scratch over an edge table whose ids are the indices
/// is in order and consistent with the table: every edge stands once, in
/// table order, in the row of each neuron that it has among its sources,
/// and nowhere else.
pub proof fn lemma_rebuilt_is_indexed(rt: PlusView)
    requires
        edge_ids_match(rt.edges),
    ensures
        rt.rebuilt().indexed(),
        rt.rebuilt().in_order(),
{
    lemma_rebuilt_is_in_order(rt.edges, rt.neurons.len());
    lemma_ids_bound_table(rt.edges);
}

/// Whatever a tick delivers, neither counter exceeds its budget.
pub proof fn lemma_tick_within_budgets(rt: PlusView, b: StepBudgets)
    requires
        rt.wheel.wf(),
    ensures
        rt.tick(b).within(b),
{
    lemma_advance_keeps_wf(rt.wheel);
    let due = rt.wheel.due();
    lemma_events_keep_budget(rt.start_tick(), b, due, rt.adjacency, due.len());
}

/// A tick with an edge-visit budget of zero hands out the events of the
/// current slot and delivers nothing: no neuron receives an input, no weight
/// changes, no spike is scheduled.
pub proof fn lemma_zero_edge_budget(rt: PlusView, b: StepBudgets)
    requires
        rt.wheel.wf(),
        b.max_edge_visits == Some(0usize),
    ensures
        rt.step(b).neurons == rt.neurons,
        rt.step(b).edges == rt.edges,
        rt.step(b).wheel == rt.wheel.advance(),
        rt.tick(b).edge_visits == 0,
        rt.tick(b).spikes == 0,
{
    lemma_advance_keeps_wf(rt.wheel);
    let due = rt.wheel.due();
    lemma_events_keep_budget(rt.start_tick(), b, due, rt.adjacency, due.len());
}

/// A tick with a spike budget of zero hands out the events of the current
/// slot and may deliver injections, but schedules no spike: the wheel holds
/// what it held after the slot was taken out, and no weight changes.
pub proof fn lemma_zero_spike_budget(rt: PlusView, b: StepBudgets)
    requires
        rt.wheel.wf(),
        b.max_spikes_scheduled == Some(0usize),
    ensures
        rt.step(b).wheel == rt.wheel.advance(),
        rt.step(b).edges == rt.edges,
        rt.tick(b).spikes == 0,
{
    lemma_advance_keeps_wf(rt.wheel);
    let due = rt.wheel.due();
    lemma_events_keep_budget(rt.start_tick(), b, due, rt.adjacency, due.len());
}

/// A tick of a runtime whose weights lie within the bounds of its rule
/// leaves every weight within those bounds, whatever the rule updates.
pub proof fn lemma_step_keeps_weights_clamped(rt: PlusView, b: StepBudgets)
    requires
        rt.weights_clamped(),
    ensures
        rt.step(b).weights_clamped(),
{
    let due = rt.wheel.due();
    let start = rt.start_tick();
    assert(start.weights_clamped());
    lemma_events_keep_weights_clamped(start, b, due, rt.adjacency, due.len());
}

/// The index replaces the scan: a tick without budgets of a runtime without
/// a rule whose index is in order leaves the network as a tick of the plain
/// runtime leaves it, and leaves the index in order. Every index that the
/// runtime builds, edge by edge or from scratch, is in order, so an edge
/// delivers one input to each of its targets per spike of a source in
/// either runtime.
pub proof fn lemma_index_replaces_scan(rt: PlusView)
    requires
        rt.wheel.wf(),
        rt.rule is None,
        rt.in_order(),
    ensures
        rt.step(StepBudgets::unbounded()).net() == rt.net().step(),
        rt.step(StepBudgets::unbounded()).in_order(),
        rt.step(StepBudgets::unbounded()).rule is None,
{
    let unb = StepBudgets::unbounded();
    let due = rt.wheel.due();
    lemma_advance_keeps_wf(rt.wheel);
    lemma_scanned_events_are_indexed_events(
        rt.net().start_tick(),
        rt.start_tick(),
        due,
        rt.adjacency,
        due.len(),
    );
    lemma_events_extend(rt.start_tick(), unb, due, rt.adjacency, due.len());
    lemma_step_keeps_ids(rt, unb);
}

} // verus!
