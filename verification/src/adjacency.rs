//! The adjacency index: for each source neuron, the ids of its outgoing
//! edges in the order in which they were added.
//!
//! The index is derived from the edge table. It is either built from scratch
//! or kept up to date edge by edge. Either way an edge is linked once in the
//! row of each neuron that it has among its sources, however often its
//! source list names the neuron, and a row is created where a source has
//! none.

use vstd::prelude::*;
use crate::hypergraph::EdgeView;

verus! {

/// The rows held by a vector of rows.
pub open spec fn rows_view(rows: Seq<Vec<u32>>) -> Seq<Seq<u32>> {
    Seq::new(rows.len(), |i: int| rows[i]@)
}

/// An index of `n` rows without entries.
pub open spec fn empty_rows(n: nat) -> Seq<Seq<u32>> {
    Seq::new(n, |i: int| Seq::<u32>::empty())
}

/// The row of neuron `s`; a neuron without a row has no outgoing edges.
pub open spec fn row_at(adj: Seq<Seq<u32>>, s: int) -> Seq<u32> {
    if 0 <= s < adj.len() {
        adj[s]
    } else {
        Seq::empty()
    }
}

/// An index that has a row for neuron `id`: the index itself where the row
/// exists, else the index extended with empty rows up to that row.
pub open spec fn with_row(adj: Seq<Seq<u32>>, id: u32) -> Seq<Seq<u32>> {
    if (id as int) < adj.len() {
        adj
    } else {
        adj + empty_rows((id + 1 - adj.len()) as nat)
    }
}

/// The index with edge `eid` appended to the row of `s`, which is created
/// where it is missing.
pub open spec fn linked(adj: Seq<Seq<u32>>, s: u32, eid: u32) -> Seq<Seq<u32>> {
    let g = with_row(adj, s);
    g.update(s as int, g[s as int].push(eid))
}

/// One of the first `n` entries of `sources` is neuron `s`.
pub open spec fn among(sources: Seq<u32>, n: nat, s: int) -> bool {
    exists|i: int| 0 <= i < n && i < sources.len() && #[trigger] sources[i] as int == s
}

/// The index after the first `n` sources of edge `eid` were linked. A source
/// that the list has named before is passed over, so that the edge stands
/// once in the row of each of its sources.
pub open spec fn link_sources(adj: Seq<Seq<u32>>, sources: Seq<u32>, eid: u32, n: nat) -> Seq<
    Seq<u32>,
>
    decreases n,
{
    if n == 0 {
        adj
    } else {
        let before = link_sources(adj, sources, eid, (n - 1) as nat);
        if among(sources, (n - 1) as nat, sources[n - 1] as int) {
            before
        } else {
            linked(before, sources[n - 1], eid)
        }
    }
}

/// The index after the first `n` edges of the table were linked, each under
/// the id that it carries.
pub open spec fn link_edges(adj: Seq<Seq<u32>>, edges: Seq<EdgeView>, n: nat) -> Seq<Seq<u32>>
    decreases n,
{
    if n == 0 {
        adj
    } else {
        let e = edges[n - 1];
        link_sources(link_edges(adj, edges, (n - 1) as nat), e.sources, e.id, e.sources.len())
    }
}

/// The index built from scratch: `rows` empty rows to start with, then every
/// edge linked in table order.
pub open spec fn adjacency_of(edges: Seq<EdgeView>, rows: nat) -> Seq<Seq<u32>> {
    link_edges(empty_rows(rows), edges, edges.len())
}

/// Every edge has its index as its id.
pub open spec fn edge_ids_match(edges: Seq<EdgeView>) -> bool {
    forall|j: int| 0 <= j < edges.len() ==> (#[trigger] edges[j]).id == j
}

/// The ids, in table order, of those of the first `n` edges that have neuron
/// `s` among their sources.
pub open spec fn outgoing_of(edges: Seq<EdgeView>, s: int, n: nat) -> Seq<u32>
    decreases n,
{
    if n == 0 {
        Seq::empty()
    } else {
        let before = outgoing_of(edges, s, (n - 1) as nat);
        if edges[n - 1].has_source(s) {
            before.push((n - 1) as u32)
        } else {
            before
        }
    }
}

/// The index is consistent with the edge table: an edge id stands in the
/// row of a neuron exactly if the id names an edge that has the neuron among
/// its sources.
pub open spec fn adjacency_consistent(adj: Seq<Seq<u32>>, edges: Seq<EdgeView>) -> bool {
    forall|s: int, eid: u32| #[trigger]
        row_at(adj, s).contains(eid) <==> (eid as int) < edges.len() && edges[eid as int].has_source(
            s,
        )
}

/// The index is in order: the row of every neuron lists, in table order and
/// once each, the edges that have the neuron among their sources.
pub open spec fn adjacency_in_order(adj: Seq<Seq<u32>>, edges: Seq<EdgeView>) -> bool {
    forall|s: int| #[trigger] row_at(adj, s) == outgoing_of(edges, s, edges.len())
}

/// The rows of the index after an edge with the given sources was linked
/// under `eid`: the row of each of the sources with `eid` appended once,
/// every other row as it was.
pub open spec fn rows_after_link(
    before: Seq<Seq<u32>>,
    after: Seq<Seq<u32>>,
    sources: Seq<u32>,
    eid: u32,
) -> bool {
    forall|s: int|
        #[trigger] row_at(after, s) == if among(sources, sources.len(), s) {
            row_at(before, s).push(eid)
        } else {
            row_at(before, s)
        }
}

/// Whether the list has named its entry `i` before.
pub(crate) fn listed_before(sources: &Vec<u32>, i: usize) -> (found: bool)
    requires
        i < sources@.len(),
    ensures
        found == among(sources@, i as nat, sources@[i as int] as int),
{
    let s = sources[i];
    let mut j: usize = 0;
    while j < i
        invariant
            j <= i,
            i < sources@.len(),
            s == sources@[i as int],
            forall|k: int| 0 <= k < j ==> sources@[k] != s,
        decreases i - j,
    {
        if sources[j] == s {
            assert(sources@[j as int] as int == s as int);
            return true;
        }
        j = j + 1;
    }
    false
}

/// Extends an index with empty rows until it has a row for neuron `id`.
pub(crate) fn grow_rows(rows: &mut Vec<Vec<u32>>, id: u32)
    ensures
        rows_view(final(rows)@) == with_row(rows_view(old(rows)@), id),
{
    let idx = id as usize;
    let ghost before = rows_view(rows@);
    while rows.len() <= idx
        invariant
            idx == id,
            before == rows_view(old(rows)@),
            before.len() <= rows@.len(),
            rows@.len() <= idx + 1 || rows@.len() == before.len(),
            forall|i: int| 0 <= i < before.len() ==> rows_view(rows@)[i] == before[i],
            forall|i: int|
                before.len() <= i < rows@.len() ==> rows_view(rows@)[i] == Seq::<u32>::empty(),
        decreases idx + 1 - rows@.len(),
    {
        let ghost so_far = rows_view(rows@);
        rows.push(Vec::new());
        assert(rows_view(rows@) =~= so_far.push(Seq::<u32>::empty()));
    }
    assert(rows_view(rows@) =~= with_row(before, id));
}

/// Links edge `eid` in the row of each of its sources, once per neuron, and
/// creates the rows that are missing.
pub(crate) fn link_edge(rows: &mut Vec<Vec<u32>>, sources: &Vec<u32>, eid: u32)
    ensures
        rows_view(final(rows)@) == link_sources(
            rows_view(old(rows)@),
            sources@,
            eid,
            sources@.len(),
        ),
        rows_after_link(rows_view(old(rows)@), rows_view(final(rows)@), sources@, eid),
{
    let ghost start = rows_view(rows@);
    let mut i: usize = 0;
    while i < sources.len()
        invariant
            i <= sources@.len(),
            start == rows_view(old(rows)@),
            rows_view(rows@) == link_sources(start, sources@, eid, i as nat),
        decreases sources@.len() - i,
    {
        if !listed_before(sources, i) {
            let s = sources[i];
            let ghost so_far = rows_view(rows@);
            grow_rows(rows, s);
            let ghost grown = rows_view(rows@);
            proof {
                lemma_with_row_keeps_rows(so_far, s);
            }
            rows[s as usize].push(eid);
            assert(rows_view(rows@) =~= grown.update(s as int, grown[s as int].push(eid)));
        }
        i = i + 1;
    }
    proof {
        lemma_link_sources_all(start, sources@, eid);
    }
}

/// Creating a row changes the row of no neuron.
pub proof fn lemma_with_row_keeps_rows(adj: Seq<Seq<u32>>, id: u32)
    ensures
        with_row(adj, id).len() > id,
        with_row(adj, id).len() >= adj.len(),
        forall|s: int| row_at(with_row(adj, id), s) == #[trigger] row_at(adj, s),
{
    assert forall|s: int| row_at(with_row(adj, id), s) == #[trigger] row_at(adj, s) by {
        if 0 <= s < with_row(adj, id).len() && s >= adj.len() {
            assert(with_row(adj, id)[s] == empty_rows((id + 1 - adj.len()) as nat)[s - adj.len()]);
        }
    }
}

/// Linking a source appends the edge to the row of that source and to no
/// other.
pub proof fn lemma_linked_rows(adj: Seq<Seq<u32>>, s: u32, eid: u32)
    ensures
        linked(adj, s, eid).len() > s,
        linked(adj, s, eid).len() >= adj.len(),
        forall|r: int|
            #[trigger] row_at(linked(adj, s, eid), r) == if r == s {
                row_at(adj, r).push(eid)
            } else {
                row_at(adj, r)
            },
{
    lemma_with_row_keeps_rows(adj, s);
    let g = with_row(adj, s);
    assert forall|r: int|
        #[trigger] row_at(linked(adj, s, eid), r) == if r == s {
            row_at(adj, r).push(eid)
        } else {
            row_at(adj, r)
        } by {
        assert(row_at(g, r) == row_at(adj, r));
    }
}

/// Membership in a sequence with one more element.
pub proof fn lemma_push_contains(row: Seq<u32>, eid: u32, x: u32)
    ensures
        row.push(eid).contains(x) <==> row.contains(x) || x == eid,
{
    if row.contains(x) {
        let i = choose|i: int| 0 <= i < row.len() && row[i] == x;
        assert(row.push(eid)[i] == x);
    }
    if x == eid {
        assert(row.push(eid)[row.len() as int] == x);
    }
    if row.push(eid).contains(x) {
        let i = choose|i: int| 0 <= i < row.push(eid).len() && row.push(eid)[i] == x;
        if i < row.len() {
            assert(row[i] == x);
        }
    }
}

/// A neuron is among the first `n` sources exactly if it is among the first
/// `n - 1` or is the `n`-th.
pub proof fn lemma_among_step(sources: Seq<u32>, n: nat, s: int)
    requires
        0 < n <= sources.len(),
    ensures
        among(sources, n, s) <==> among(sources, (n - 1) as nat, s) || sources[n - 1] as int == s,
{
    if among(sources, (n - 1) as nat, s) {
        let i = choose|i: int| 0 <= i < n - 1 && i < sources.len() && #[trigger] sources[i] as int == s;
        assert(0 <= i < n && sources[i] as int == s);
    }
    if sources[n - 1] as int == s {
        assert(0 <= n - 1 < n && sources[n - 1] as int == s);
    }
}

/// A neuron is a source of an edge exactly if it is among all its sources.
pub proof fn lemma_among_all(e: EdgeView, s: int)
    ensures
        among(e.sources, e.sources.len(), s) <==> e.has_source(s),
{
    if among(e.sources, e.sources.len(), s) {
        let i = choose|i: int|
            0 <= i < e.sources.len() && i < e.sources.len() && #[trigger] e.sources[i] as int == s;
        assert(0 <= i < e.sources.len() && e.sources[i] as int == s);
    }
    if e.has_source(s) {
        let i = choose|i: int| 0 <= i < e.sources.len() && #[trigger] e.sources[i] as int == s;
        assert(0 <= i < e.sources.len() && i < e.sources.len() && e.sources[i] as int == s);
    }
}

/// The rows after the first `n` sources of an edge were linked: the row of
/// each neuron among those sources with the edge appended once, whether the
/// list names the neuron once or more often, and every other row as it was.
/// Every one of those sources has a row.
pub proof fn lemma_link_sources_rows(adj: Seq<Seq<u32>>, sources: Seq<u32>, eid: u32, n: nat)
    requires
        n <= sources.len(),
    ensures
        link_sources(adj, sources, eid, n).len() >= adj.len(),
        forall|i: int| 0 <= i < n ==> (#[trigger] sources[i]) < link_sources(adj, sources, eid, n).len(),
        forall|r: int|
            #[trigger] row_at(link_sources(adj, sources, eid, n), r) == if among(sources, n, r) {
                row_at(adj, r).push(eid)
            } else {
                row_at(adj, r)
            },
    decreases n,
{
    if n > 0 {
        let prev = link_sources(adj, sources, eid, (n - 1) as nat);
        let s = sources[n - 1];
        let now = link_sources(adj, sources, eid, n);
        lemma_link_sources_rows(adj, sources, eid, (n - 1) as nat);
        lemma_linked_rows(prev, s, eid);
        let seen = among(sources, (n - 1) as nat, s as int);
        assert forall|i: int| 0 <= i < n implies (#[trigger] sources[i]) < now.len() by {
            if i == n - 1 && seen {
                let k = choose|k: int|
                    0 <= k < n - 1 && k < sources.len() && #[trigger] sources[k] as int == s as int;
                assert(sources[k] < prev.len());
            }
        }
        assert forall|r: int|
            #[trigger] row_at(now, r) == if among(sources, n, r) {
                row_at(adj, r).push(eid)
            } else {
                row_at(adj, r)
            } by {
            lemma_among_step(sources, n, r);
            assert(row_at(prev, r) == if among(sources, (n - 1) as nat, r) {
                row_at(adj, r).push(eid)
            } else {
                row_at(adj, r)
            });
        }
    }
}

/// Linking an edge leaves the rows as `rows_after_link` says.
pub proof fn lemma_link_sources_all(adj: Seq<Seq<u32>>, sources: Seq<u32>, eid: u32)
    ensures
        rows_after_link(adj, link_sources(adj, sources, eid, sources.len()), sources, eid),
        link_sources(adj, sources, eid, sources.len()).len() >= adj.len(),
        forall|i: int|
            0 <= i < sources.len() ==> (#[trigger] sources[i]) < link_sources(
                adj,
                sources,
                eid,
                sources.len(),
            ).len(),
{
    lemma_link_sources_rows(adj, sources, eid, sources.len());
}

/// What `outgoing_of` lists: the indices below `n` of the edges that have
/// the neuron among their sources.
pub proof fn lemma_outgoing_members(edges: Seq<EdgeView>, s: int, n: nat, x: u32)
    requires
        n <= edges.len(),
        n <= u32::MAX + 1,
    ensures
        outgoing_of(edges, s, n).contains(x) <==> (x as int) < n && edges[x as int].has_source(s),
    decreases n,
{
    if n > 0 {
        lemma_outgoing_members(edges, s, (n - 1) as nat, x);
        if edges[n - 1].has_source(s) {
            lemma_push_contains(outgoing_of(edges, s, (n - 1) as nat), (n - 1) as u32, x);
        }
    }
}

/// Edges with the same sources have the same neurons among their sources.
pub proof fn lemma_same_sources(a: EdgeView, b: EdgeView, s: int)
    requires
        a.sources == b.sources,
    ensures
        a.has_source(s) == b.has_source(s),
{
    if a.has_source(s) {
        let i = choose|i: int| 0 <= i < a.sources.len() && #[trigger] a.sources[i] as int == s;
        assert(0 <= i < b.sources.len() && b.sources[i] as int == s);
    }
    if b.has_source(s) {
        let i = choose|i: int| 0 <= i < b.sources.len() && #[trigger] b.sources[i] as int == s;
        assert(0 <= i < a.sources.len() && a.sources[i] as int == s);
    }
}

/// `outgoing_of` looks only at the sources of the first `n` edges.
pub proof fn lemma_outgoing_depends_on_sources(a: Seq<EdgeView>, b: Seq<EdgeView>, s: int, n: nat)
    requires
        n <= a.len(),
        n <= b.len(),
        forall|j: int| 0 <= j < n ==> (#[trigger] a[j]).sources == b[j].sources,
    ensures
        outgoing_of(a, s, n) == outgoing_of(b, s, n),
    decreases n,
{
    if n > 0 {
        lemma_outgoing_depends_on_sources(a, b, s, (n - 1) as nat);
        assert(a[n - 1].sources == b[n - 1].sources);
        lemma_same_sources(a[n - 1], b[n - 1], s);
    }
}

/// A table whose ids are the indices fits the id range.
pub proof fn lemma_ids_bound_table(edges: Seq<EdgeView>)
    requires
        edge_ids_match(edges),
    ensures
        edges.len() <= u32::MAX + 1,
{
    if edges.len() > 0 {
        assert(edges[edges.len() - 1].id == edges.len() - 1);
    }
}

/// An index in order over a table that fits the id range is consistent with
/// the table.
pub proof fn lemma_in_order_is_consistent(adj: Seq<Seq<u32>>, edges: Seq<EdgeView>)
    requires
        adjacency_in_order(adj, edges),
        edges.len() <= u32::MAX + 1,
    ensures
        adjacency_consistent(adj, edges),
{
    assert forall|s: int, eid: u32| #[trigger]
        row_at(adj, s).contains(eid) <==> (eid as int) < edges.len() && edges[eid as int].has_source(
            s,
        ) by {
        lemma_outgoing_members(edges, s, edges.len(), eid);
    }
}

/// The rows after the first `n` edges of a table whose ids are the indices
/// were linked: each row lists what it listed before, then those of the `n`
/// edges that have the neuron among their sources, in table order and once
/// each.
pub proof fn lemma_link_edges_rows(adj: Seq<Seq<u32>>, edges: Seq<EdgeView>, n: nat)
    requires
        n <= edges.len(),
        edge_ids_match(edges),
    ensures
        link_edges(adj, edges, n).len() >= adj.len(),
        forall|r: int|
            #[trigger] row_at(link_edges(adj, edges, n), r) == row_at(adj, r) + outgoing_of(
                edges,
                r,
                n,
            ),
    decreases n,
{
    if n > 0 {
        let prev = link_edges(adj, edges, (n - 1) as nat);
        let e = edges[n - 1];
        let now = link_edges(adj, edges, n);
        lemma_link_edges_rows(adj, edges, (n - 1) as nat);
        lemma_link_sources_rows(prev, e.sources, e.id, e.sources.len());
        assert forall|r: int|
            #[trigger] row_at(now, r) == row_at(adj, r) + outgoing_of(edges, r, n) by {
            lemma_among_all(e, r);
            assert(row_at(prev, r) == row_at(adj, r) + outgoing_of(edges, r, (n - 1) as nat));
            assert(row_at(now, r) == if among(e.sources, e.sources.len(), r) {
                row_at(prev, r).push(e.id)
            } else {
                row_at(prev, r)
            });
            assert(e.id as int == n - 1);
            assert(row_at(now, r) =~= row_at(adj, r) + outgoing_of(edges, r, n));
        }
    } else {
        assert forall|r: int|
            #[trigger] row_at(link_edges(adj, edges, n), r) == row_at(adj, r) + outgoing_of(
                edges,
                r,
                n,
            ) by {
            assert(row_at(adj, r) + Seq::<u32>::empty() =~= row_at(adj, r));
        }
    }
}

/// An index built from scratch over a table whose ids are the indices is in
/// order and consistent with the table, whatever the sources are: a source
/// listed twice is linked once, and a source beyond the rows that the index
/// started with gets a row.
pub proof fn lemma_rebuilt_is_in_order(edges: Seq<EdgeView>, rows: nat)
    requires
        edge_ids_match(edges),
    ensures
        adjacency_of(edges, rows).len() >= rows,
        adjacency_in_order(adjacency_of(edges, rows), edges),
        adjacency_consistent(adjacency_of(edges, rows), edges),
{
    let adj = adjacency_of(edges, rows);
    lemma_link_edges_rows(empty_rows(rows), edges, edges.len());
    assert forall|s: int| #[trigger] row_at(adj, s) == outgoing_of(edges, s, edges.len()) by {
        assert(row_at(empty_rows(rows), s) + outgoing_of(edges, s, edges.len()) =~= outgoing_of(
            edges,
            s,
            edges.len(),
        ));
    }
    lemma_ids_bound_table(edges);
    lemma_in_order_is_consistent(adj, edges);
}

/// Creating a row keeps a consistent index consistent.
pub proof fn lemma_row_keeps_consistent(adj: Seq<Seq<u32>>, edges: Seq<EdgeView>, id: u32)
    requires
        adjacency_consistent(adj, edges),
    ensures
        adjacency_consistent(with_row(adj, id), edges),
{
    lemma_with_row_keeps_rows(adj, id);
    assert forall|s: int, eid: u32| #[trigger]
        row_at(with_row(adj, id), s).contains(eid) <==> (eid as int) < edges.len()
            && edges[eid as int].has_source(s) by {
        assert(row_at(with_row(adj, id), s) == row_at(adj, s));
        assert(row_at(adj, s).contains(eid) <==> (eid as int) < edges.len()
            && edges[eid as int].has_source(s));
    }
}

/// Creating a row keeps an index in order.
pub proof fn lemma_row_keeps_order(adj: Seq<Seq<u32>>, edges: Seq<EdgeView>, id: u32)
    requires
        adjacency_in_order(adj, edges),
    ensures
        adjacency_in_order(with_row(adj, id), edges),
{
    lemma_with_row_keeps_rows(adj, id);
    assert forall|s: int| #[trigger]
        row_at(with_row(adj, id), s) == outgoing_of(edges, s, edges.len()) by {
        assert(row_at(with_row(adj, id), s) == row_at(adj, s));
    }
}

/// Linking a new edge, whose id is its index, keeps a consistent index
/// consistent with the extended table, whatever its sources are.
pub proof fn lemma_link_keeps_consistent(adj: Seq<Seq<u32>>, edges: Seq<EdgeView>, e: EdgeView)
    requires
        adjacency_consistent(adj, edges),
        e.id as int == edges.len(),
    ensures
        adjacency_consistent(link_sources(adj, e.sources, e.id, e.sources.len()), edges.push(e)),
{
    let now = link_sources(adj, e.sources, e.id, e.sources.len());
    let table = edges.push(e);
    lemma_link_sources_rows(adj, e.sources, e.id, e.sources.len());
    assert forall|s: int, eid: u32| #[trigger]
        row_at(now, s).contains(eid) <==> (eid as int) < table.len() && table[eid as int].has_source(
            s,
        ) by {
        lemma_among_all(e, s);
        lemma_push_contains(row_at(adj, s), e.id, eid);
        assert(row_at(adj, s).contains(eid) <==> (eid as int) < edges.len()
            && edges[eid as int].has_source(s));
        if (eid as int) < edges.len() {
            assert(table[eid as int] == edges[eid as int]);
        }
    }
}

/// Linking a new edge, whose id is its index, keeps an index in order over
/// the extended table, whatever its sources are.
pub proof fn lemma_link_keeps_order(adj: Seq<Seq<u32>>, edges: Seq<EdgeView>, e: EdgeView)
    requires
        adjacency_in_order(adj, edges),
        e.id as int == edges.len(),
    ensures
        adjacency_in_order(link_sources(adj, e.sources, e.id, e.sources.len()), edges.push(e)),
{
    let now = link_sources(adj, e.sources, e.id, e.sources.len());
    let table = edges.push(e);
    lemma_link_sources_rows(adj, e.sources, e.id, e.sources.len());
    assert forall|s: int| #[trigger] row_at(now, s) == outgoing_of(table, s, table.len()) by {
        lemma_among_all(e, s);
        assert(row_at(adj, s) == outgoing_of(edges, s, edges.len()));
        assert forall|j: int| 0 <= j < edges.len() implies (#[trigger] edges[j]).sources
            == table[j].sources by {}
        lemma_outgoing_depends_on_sources(edges, table, s, edges.len());
        assert(table[edges.len() as int] == e);
    }
}

} // verus!
