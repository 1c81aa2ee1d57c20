//! Plasticity: the hook protocol by which a learning rule follows the spikes
//! of a tick, and a quantized spike-timing-dependent rule.
//!
//! The rule keeps one pre-synaptic and one post-synaptic trace per neuron, in
//! Q16.16. A spike raises the trace of its neuron by `1.0`; every tick scales
//! all traces by a decay factor; an edge whose target fired has its weight
//! raised by `a_plus` times the pre-trace of the source, lowered by `a_minus`
//! times the post-trace of the target, and clamped into `[w_min, w_max]`.

use vstd::prelude::*;
use crate::error::EmbeddedError;
use crate::fixed::{
    add_sat, add_sat_spec, fixed_mul, fixed_mul_spec, lemma_fixed_mul_shrinks,
    lemma_fixed_mul_zero, sub_sat, sub_sat_spec, Fixed, SCALE,
};

verus! {

/// The hooks through which a learning rule takes part in a tick.
pub trait PlasticityRule {
    /// Called once per tick, before any event is delivered.
    fn decay(&mut self);

    /// Called when neuron `pre` spikes at tick `t`.
    fn on_pre_spike(&mut self, pre: u32, t: u64);

    /// Called when neuron `post` fires at tick `t` because of a delivery.
    fn on_post_spike(&mut self, post: u32, t: u64);

    /// Updates the weight of an edge that carried a spike of `pre` to `post`.
    fn apply_edge(&mut self, pre: u32, post: u32, weight: &mut Fixed);
}

/// A trace table that has a row for neuron `id`: the table itself where the
/// row exists, else the table extended with zeros up to that row.
pub open spec fn grown(s: Seq<Fixed>, id: u32) -> Seq<Fixed> {
    if (id as int) < s.len() {
        s
    } else {
        s + Seq::new((id + 1 - s.len()) as nat, |i: int| 0i32)
    }
}

/// The trace of neuron `id`; a neuron without a row has trace zero.
pub open spec fn trace_at(s: Seq<Fixed>, id: u32) -> Fixed {
    if (id as int) < s.len() {
        s[id as int]
    } else {
        0
    }
}

/// The table after a spike of neuron `id`: its trace raised by `1.0`,
/// saturating.
pub open spec fn bumped(s: Seq<Fixed>, id: u32) -> Seq<Fixed> {
    let g = grown(s, id);
    g.update(id as int, add_sat_spec(g[id as int] as int, SCALE as int) as Fixed)
}

/// The table with every trace scaled by `alpha`.
pub open spec fn faded(s: Seq<Fixed>, alpha: Fixed) -> Seq<Fixed> {
    Seq::new(s.len(), |i: int| fixed_mul_spec(s[i] as int, alpha as int) as Fixed)
}

/// Every trace of the table lies between zero and the saturation limit.
pub open spec fn bounded(s: Seq<Fixed>) -> bool {
    forall|i: int| 0 <= i < s.len() ==> 0 <= #[trigger] s[i] <= i32::MAX
}

/// Mathematical model of the quantized rule: its parameters and its traces.
pub struct StdpView {
    pub a_plus: Fixed,
    pub a_minus: Fixed,
    pub alpha_pre: Fixed,
    pub alpha_post: Fixed,
    pub w_min: Fixed,
    pub w_max: Fixed,
    pub pre_trace: Seq<Fixed>,
    pub post_trace: Seq<Fixed>,
}

/// One call of a hook, as far as the traces are concerned.
pub enum TraceOp {
    Decay,
    PreSpike(u32),
    PostSpike(u32),
    ApplyEdge(u32, u32),
}

impl StdpView {
    /// The pre-synaptic trace of neuron `id`.
    pub open spec fn pre_at(self, id: u32) -> Fixed {
        trace_at(self.pre_trace, id)
    }

    /// The post-synaptic trace of neuron `id`.
    pub open spec fn post_at(self, id: u32) -> Fixed {
        trace_at(self.post_trace, id)
    }

    /// The rule with rows for neuron `id` in both tables.
    pub open spec fn with_row(self, id: u32) -> StdpView {
        StdpView {
            pre_trace: grown(self.pre_trace, id),
            post_trace: grown(self.post_trace, id),
            ..self
        }
    }

    /// The rule after one tick of decay.
    pub open spec fn decayed(self) -> StdpView {
        StdpView {
            pre_trace: faded(self.pre_trace, self.alpha_pre),
            post_trace: faded(self.post_trace, self.alpha_post),
            ..self
        }
    }

    /// The rule after a spike of neuron `pre`.
    pub open spec fn pre_spiked(self, pre: u32) -> StdpView {
        StdpView {
            pre_trace: bumped(self.pre_trace, pre),
            post_trace: grown(self.post_trace, pre),
            ..self
        }
    }

    /// The rule after neuron `post` fired.
    pub open spec fn post_spiked(self, post: u32) -> StdpView {
        StdpView {
            pre_trace: grown(self.pre_trace, post),
            post_trace: bumped(self.post_trace, post),
            ..self
        }
    }

    /// The rule after it updated an edge from `pre` to `post`: both neurons
    /// have rows, no trace changed its value.
    pub open spec fn edge_applied(self, pre: u32, post: u32) -> StdpView {
        self.with_row(pre).with_row(post)
    }

    /// The weight that an update gives to an edge from `pre` to `post` whose
    /// weight was `w`.
    pub open spec fn weight_after(self, pre: u32, post: u32, w: Fixed) -> Fixed {
        let ltp = fixed_mul_spec(self.a_plus as int, self.pre_at(pre) as int);
        let ltd = fixed_mul_spec(self.a_minus as int, self.post_at(post) as int);
        let moved = sub_sat_spec(add_sat_spec(w as int, ltp), ltd) as Fixed;
        let raised = if moved < self.w_min {
            self.w_min
        } else {
            moved
        };
        if raised > self.w_max {
            self.w_max
        } else {
            raised
        }
    }

    /// The lower weight bound does not exceed the upper one. Every rule that
    /// a constructor hands out has ordered bounds, and no hook changes them.
    pub open spec fn ordered(self) -> bool {
        self.w_min <= self.w_max
    }

    /// Both decay factors lie between `0.0` and `1.0`.
    pub open spec fn fading(self) -> bool {
        0 <= self.alpha_pre <= SCALE && 0 <= self.alpha_post <= SCALE
    }

    /// Every trace lies between zero and the saturation limit.
    pub open spec fn traces_bounded(self) -> bool {
        bounded(self.pre_trace) && bounded(self.post_trace)
    }

    /// Every trace is zero.
    pub open spec fn traces_zero(self) -> bool {
        &&& forall|i: int| 0 <= i < self.pre_trace.len() ==> #[trigger] self.pre_trace[i] == 0
        &&& forall|i: int| 0 <= i < self.post_trace.len() ==> #[trigger] self.post_trace[i] == 0
    }

    /// The rule after one hook call.
    pub open spec fn after_op(self, op: TraceOp) -> StdpView {
        match op {
            TraceOp::Decay => self.decayed(),
            TraceOp::PreSpike(pre) => self.pre_spiked(pre),
            TraceOp::PostSpike(post) => self.post_spiked(post),
            TraceOp::ApplyEdge(pre, post) => self.edge_applied(pre, post),
        }
    }

    /// The rule after the first `n` of a sequence of hook calls.
    pub open spec fn after_ops(self, ops: Seq<TraceOp>, n: nat) -> StdpView
        decreases n,
    {
        if n == 0 {
            self
        } else {
            self.after_ops(ops, (n - 1) as nat).after_op(ops[n - 1])
        }
    }
}

/// Quantized spike-timing-dependent plasticity.
pub struct QuantizedStdp {
    a_plus: Fixed,
    a_minus: Fixed,
    alpha_pre: Fixed,
    alpha_post: Fixed,
    w_min: Fixed,
    w_max: Fixed,
    pre_trace: Vec<Fixed>,
    post_trace: Vec<Fixed>,
}

impl View for QuantizedStdp {
    type V = StdpView;

    closed spec fn view(&self) -> StdpView {
        StdpView {
            a_plus: self.a_plus,
            a_minus: self.a_minus,
            alpha_pre: self.alpha_pre,
            alpha_post: self.alpha_post,
            w_min: self.w_min,
            w_max: self.w_max,
            pre_trace: self.pre_trace@,
            post_trace: self.post_trace@,
        }
    }
}

/// The fixed-point product of a trace or a rate with a factor.
fn fx_mul(a: Fixed, b: Fixed) -> (r: Fixed)
    ensures
        r == fixed_mul_spec(a as int, b as int),
{
    fixed_mul(a, b)
}

/// The saturating sum of two fixed-point numbers.
fn fx_add_sat(a: Fixed, b: Fixed) -> (r: Fixed)
    ensures
        r == add_sat_spec(a as int, b as int),
{
    add_sat(a, b)
}

/// The saturating difference of two fixed-point numbers.
fn fx_sub_sat(a: Fixed, b: Fixed) -> (r: Fixed)
    ensures
        r == sub_sat_spec(a as int, b as int),
{
    sub_sat(a, b)
}

/// Extends a trace table with zeros until it has a row for `id`.
fn grow_table(table: &mut Vec<Fixed>, id: u32)
    ensures
        final(table)@ == grown(old(table)@, id),
{
    let idx = id as usize;
    while table.len() <= idx
        invariant
            idx == id,
            old(table)@.len() <= table@.len(),
            table@.len() <= idx + 1 || table@.len() == old(table)@.len(),
            forall|i: int| 0 <= i < old(table)@.len() ==> table@[i] == old(table)@[i],
            forall|i: int| old(table)@.len() <= i < table@.len() ==> table@[i] == 0,
        decreases idx + 1 - table@.len(),
    {
        table.push(0);
    }
    assert(table@ =~= grown(old(table)@, id));
}

impl QuantizedStdp {
    /// Creates a rule with the given parameters, all in Q16.16, and no traces.
    /// Weight bounds in the wrong order are rejected.
    pub fn new(
        a_plus: Fixed,
        a_minus: Fixed,
        alpha_pre: Fixed,
        alpha_post: Fixed,
        w_min: Fixed,
        w_max: Fixed,
    ) -> (r: Result<QuantizedStdp, EmbeddedError>)
        ensures
            w_min > w_max <==> r is Err,
            r matches Err(e) ==> e == EmbeddedError::InvalidConfiguration,
            r matches Ok(rule) ==> rule@.ordered() && rule@ == (StdpView {
                a_plus,
                a_minus,
                alpha_pre,
                alpha_post,
                w_min,
                w_max,
                pre_trace: Seq::empty(),
                post_trace: Seq::empty(),
            }),
    {
        if w_min > w_max {
            return Err(EmbeddedError::InvalidConfiguration);
        }
        Ok(
            QuantizedStdp {
                a_plus,
                a_minus,
                alpha_pre,
                alpha_post,
                w_min,
                w_max,
                pre_trace: Vec::new(),
                post_trace: Vec::new(),
            },
        )
    }

    /// The customary parameters: `a_plus = 0.01`, `a_minus = 0.012`, both
    /// decay factors `0.96`, weights kept in `[0.0, 1.0]`.
    pub fn with_defaults() -> (rule: QuantizedStdp)
        ensures
            rule@ == (StdpView {
                a_plus: 655,
                a_minus: 786,
                alpha_pre: 62914,
                alpha_post: 62914,
                w_min: 0,
                w_max: 65536,
                pre_trace: Seq::empty(),
                post_trace: Seq::empty(),
            }),
            rule@.fading(),
            rule@.ordered(),
    {
        QuantizedStdp {
            a_plus: 655,
            a_minus: 786,
            alpha_pre: 62914,
            alpha_post: 62914,
            w_min: 0,
            w_max: 65536,
            pre_trace: Vec::new(),
            post_trace: Vec::new(),
        }
    }

    /// Makes sure that both tables have a row for neuron `id`.
    fn ensure_neuron(&mut self, id: u32)
        ensures
            final(self)@ == old(self)@.with_row(id),
    {
        grow_table(&mut self.pre_trace, id);
        grow_table(&mut self.post_trace, id);
    }

    /// The pre-synaptic and post-synaptic trace of neuron `id`.
    pub fn traces(&self, id: u32) -> (r: (Fixed, Fixed))
        ensures
            r == (self@.pre_at(id), self@.post_at(id)),
    {
        let idx = id as usize;
        let pre = if idx < self.pre_trace.len() {
            self.pre_trace[idx]
        } else {
            0
        };
        let post = if idx < self.post_trace.len() {
            self.post_trace[idx]
        } else {
            0
        };
        (pre, post)
    }
}

/// Scales every trace of a table by `alpha`.
fn fade_table(table: &mut Vec<Fixed>, alpha: Fixed)
    ensures
        final(table)@ == faded(old(table)@, alpha),
{
    let n = table.len();
    let mut i: usize = 0;
    while i < n
        invariant
            i <= n,
            n == old(table)@.len(),
            table@.len() == n,
            forall|j: int| 0 <= j < i ==> table@[j] == fixed_mul_spec(old(table)@[j] as int, alpha as int),
            forall|j: int| i <= j < n ==> table@[j] == old(table)@[j],
        decreases n - i,
    {
        let scaled = fx_mul(table[i], alpha);
        table[i] = scaled;
        i = i + 1;
    }
    assert(table@ =~= faded(old(table)@, alpha));
}

/// Raises the trace of neuron `id` by `1.0`, creating its row where needed.
fn bump_table(table: &mut Vec<Fixed>, id: u32)
    ensures
        final(table)@ == bumped(old(table)@, id),
{
    grow_table(table, id);
    let idx = id as usize;
    let raised = fx_add_sat(table[idx], SCALE);
    table[idx] = raised;
}

impl PlasticityRule for QuantizedStdp {
    fn decay(&mut self)
        ensures
            final(self)@ == old(self)@.decayed(),
    {
        fade_table(&mut self.pre_trace, self.alpha_pre);
        fade_table(&mut self.post_trace, self.alpha_post);
    }

    fn on_pre_spike(&mut self, pre: u32, _t: u64)
        ensures
            final(self)@ == old(self)@.pre_spiked(pre),
    {
        bump_table(&mut self.pre_trace, pre);
        grow_table(&mut self.post_trace, pre);
    }

    fn on_post_spike(&mut self, post: u32, _t: u64)
        ensures
            final(self)@ == old(self)@.post_spiked(post),
    {
        grow_table(&mut self.pre_trace, post);
        bump_table(&mut self.post_trace, post);
    }

    fn apply_edge(&mut self, pre: u32, post: u32, weight: &mut Fixed)
        ensures
            final(self)@ == old(self)@.edge_applied(pre, post),
            *final(weight) == old(self)@.weight_after(pre, post, *old(weight)),
            old(self)@.ordered() ==> old(self)@.w_min <= *final(weight) <= old(self)@.w_max,
    {
        self.ensure_neuron(pre);
        self.ensure_neuron(post);

        let pre_tr = self.pre_trace[pre as usize];
        let post_tr = self.post_trace[post as usize];

        let ltp = fx_mul(self.a_plus, pre_tr);
        let ltd = fx_mul(self.a_minus, post_tr);
        let mut new_w = fx_add_sat(*weight, ltp);
        new_w = fx_sub_sat(new_w, ltd);

        if new_w < self.w_min {
            new_w = self.w_min;
        }
        if new_w > self.w_max {
            new_w = self.w_max;
        }
        *weight = new_w;
    }
}

/// Whatever the traces and the old weight are, an update leaves the weight
/// inside the bounds of the rule.
pub proof fn lemma_weight_stays_clamped(rule: StdpView, pre: u32, post: u32, w: Fixed)
    requires
        rule.ordered(),
    ensures
        rule.w_min <= rule.weight_after(pre, post, w) <= rule.w_max,
{
}

/// Growing a table keeps its traces bounded, and keeps every trace it had.
pub proof fn lemma_grown_bounded(s: Seq<Fixed>, id: u32)
    requires
        bounded(s),
    ensures
        bounded(grown(s, id)),
        forall|j: u32| trace_at(grown(s, id), j) == trace_at(s, j),
{
}

/// A spike keeps the traces of a table bounded.
pub proof fn lemma_bumped_bounded(s: Seq<Fixed>, id: u32)
    requires
        bounded(s),
    ensures
        bounded(bumped(s, id)),
{
    lemma_grown_bounded(s, id);
}

/// Decay by a factor between `0.0` and `1.0` keeps the traces of a table
/// bounded, and lets none of them grow.
pub proof fn lemma_faded_bounded(s: Seq<Fixed>, alpha: Fixed)
    requires
        bounded(s),
        0 <= alpha <= SCALE,
    ensures
        bounded(faded(s, alpha)),
        forall|i: int| 0 <= i < s.len() ==> #[trigger] faded(s, alpha)[i] <= s[i],
{
    assert forall|i: int| 0 <= i < s.len() implies 0 <= #[trigger] faded(s, alpha)[i] <= s[i] by {
        lemma_fixed_mul_shrinks(s[i] as int, alpha as int);
    }
}

/// One hook call of a rule whose decay factors lie between `0.0` and `1.0`
/// keeps every trace between zero and the saturation limit.
pub proof fn lemma_op_keeps_traces_bounded(rule: StdpView, op: TraceOp)
    requires
        rule.fading(),
        rule.traces_bounded(),
    ensures
        rule.after_op(op).fading(),
        rule.after_op(op).traces_bounded(),
{
    match op {
        TraceOp::Decay => {
            lemma_faded_bounded(rule.pre_trace, rule.alpha_pre);
            lemma_faded_bounded(rule.post_trace, rule.alpha_post);
        },
        TraceOp::PreSpike(pre) => {
            lemma_bumped_bounded(rule.pre_trace, pre);
            lemma_grown_bounded(rule.post_trace, pre);
        },
        TraceOp::PostSpike(post) => {
            lemma_grown_bounded(rule.pre_trace, post);
            lemma_bumped_bounded(rule.post_trace, post);
        },
        TraceOp::ApplyEdge(pre, post) => {
            lemma_grown_bounded(rule.pre_trace, pre);
            lemma_grown_bounded(rule.post_trace, pre);
            lemma_grown_bounded(grown(rule.pre_trace, pre), post);
            lemma_grown_bounded(grown(rule.post_trace, pre), post);
        },
    }
}

/// After any sequence of hook calls on a rule whose decay factors lie
/// between `0.0` and `1.0`, every trace lies between zero and the saturation
/// limit.
pub proof fn lemma_traces_stay_bounded(rule: StdpView, ops: Seq<TraceOp>, n: nat)
    requires
        rule.fading(),
        rule.traces_bounded(),
        n <= ops.len(),
    ensures
        rule.after_ops(ops, n).fading(),
        rule.after_ops(ops, n).traces_bounded(),
    decreases n,
{
    if n > 0 {
        lemma_traces_stay_bounded(rule, ops, (n - 1) as nat);
        lemma_op_keeps_traces_bounded(rule.after_ops(ops, (n - 1) as nat), ops[n - 1]);
    }
}

/// Decay of a rule whose traces are all zero changes nothing.
pub proof fn lemma_decay_of_zero_traces(rule: StdpView)
    requires
        rule.traces_zero(),
    ensures
        rule.decayed() == rule,
{
    lemma_fixed_mul_zero(rule.alpha_pre as int);
    lemma_fixed_mul_zero(rule.alpha_post as int);
    assert(faded(rule.pre_trace, rule.alpha_pre) =~= rule.pre_trace);
    assert(faded(rule.post_trace, rule.alpha_post) =~= rule.post_trace);
}

} // verus!
