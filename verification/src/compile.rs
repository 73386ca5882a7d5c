//! Compiling an authored graph: the order in which its nodes run, the
//! layout of its memory, and the checks that precede it.
use vstd::prelude::*;

use indexmap::IndexMap;

use crate::diagnostics::{Diagnostic, DiagnosticOrigin, DiagnosticSeverity};
use crate::expose::{ExposedAction, ExposedInput, ExposedOutput, ExposedParam, ExposedSurface};
use crate::formula::FormulaPropertySchema;
use crate::graph::{AEdge, ANodeInstance, AlchemistGraph};
use crate::ids::{ANodeId, ExecNodeId, ExposedDeclId, FormulaId, FormulaPropertyId, FormulaPropertySlotId, ValueSlotId};
use crate::indexmap_specs::{
    compiled_property_entries, compiled_property_map_get, compiled_property_map_get_index,
    compiled_property_map_insert, compiled_property_map_len, compiled_property_map_new, node_map_contains,
    node_map_get_index, node_map_get_index_of, node_map_len, resolved_socket_entries, resolved_socket_map_get_index,
    resolved_socket_map_len,
};
use crate::ordered::{entries_insert, value_of};
use crate::registry::ValueTypeRegistry;
use crate::text::concat3;
use crate::typing::{ResolvedANodeSignature, ResolvedSocket};
use crate::value::{same_value, value_type_of, RuntimeValue, ValueComponent, ValueTypeId};
use crate::ids::SocketId;
use crate::ordered::{has_key, key_pos, keys_distinct, lemma_key_pos};
use vstd::set_lib::{lemma_int_range, lemma_len_subset, lemma_subset_equality, set_int_range};

verus! {

/// The dependency that edge `e` makes between node positions, unless its
/// source node breaks dependency cycles.
pub open spec fn dep_of(nodes: Seq<(u64, ANodeInstance)>, breaks: Seq<bool>, e: AEdge) -> Option<(int, int)> {
    let a = key_pos(nodes, e.from.node);
    if breaks[a] {
        None
    } else {
        Some((a, key_pos(nodes, e.to.node)))
    }
}

/// The dependencies that `edges` make, in order, as (source, target) node
/// positions.
pub open spec fn deps_spec(nodes: Seq<(u64, ANodeInstance)>, breaks: Seq<bool>, edges: Seq<AEdge>) -> Seq<(int, int)>
    decreases edges.len(),
{
    if edges.len() == 0 {
        Seq::empty()
    } else {
        let rest = deps_spec(nodes, breaks, edges.drop_last());
        match dep_of(nodes, breaks, edges.last()) {
            Some(d) => rest.push(d),
            None => rest,
        }
    }
}

/// The targets of the dependencies from `u`, in order.
pub open spec fn targets_from(deps: Seq<(int, int)>, u: int) -> Seq<int>
    decreases deps.len(),
{
    if deps.len() == 0 {
        Seq::empty()
    } else {
        let rest = targets_from(deps.drop_last(), u);
        if deps.last().0 == u {
            rest.push(deps.last().1)
        } else {
            rest
        }
    }
}

/// How often `v` occurs in `s`.
pub open spec fn count_in(s: Seq<int>, v: int) -> nat
    decreases s.len(),
{
    if s.len() == 0 {
        0
    } else {
        count_in(s.drop_last(), v) + if s.last() == v {
            1nat
        } else {
            0nat
        }
    }
}

/// How many dependencies go from `u` to `v`.
pub open spec fn count_pair(deps: Seq<(int, int)>, u: int, v: int) -> nat
    decreases deps.len(),
{
    if deps.len() == 0 {
        0
    } else {
        count_pair(deps.drop_last(), u, v) + if deps.last() == (u, v) {
            1nat
        } else {
            0nat
        }
    }
}

/// How many dependencies into `v` come from a node not yet `done`.
pub open spec fn pending_into(deps: Seq<(int, int)>, done: Seq<bool>, v: int) -> nat
    decreases deps.len(),
{
    if deps.len() == 0 {
        0
    } else {
        pending_into(deps.drop_last(), done, v) + if deps.last().1 == v && !done[deps.last().0] {
            1nat
        } else {
            0nat
        }
    }
}

/// The targets of the dependencies from `u` count each dependency from `u`.
pub proof fn lemma_targets_count(deps: Seq<(int, int)>, u: int, v: int)
    ensures
        count_in(targets_from(deps, u), v) == count_pair(deps, u, v),
    decreases deps.len(),
{
    if deps.len() > 0 {
        lemma_targets_count(deps.drop_last(), u, v);
        let rest = targets_from(deps.drop_last(), u);
        if deps.last().0 == u {
            assert(rest.push(deps.last().1).drop_last() =~= rest);
        }
    }
}

/// Marking `u` done removes its dependencies from the pending count.
pub proof fn lemma_pending_done(deps: Seq<(int, int)>, done: Seq<bool>, u: int, v: int)
    requires
        0 <= u < done.len(),
        !done[u],
        forall|i: int| 0 <= i < deps.len() ==> 0 <= (#[trigger] deps[i]).0 < done.len(),
    ensures
        pending_into(deps, done.update(u, true), v) + count_pair(deps, u, v) == pending_into(deps, done, v),
    decreases deps.len(),
{
    if deps.len() > 0 {
        assert forall|i: int| 0 <= i < deps.drop_last().len() implies 0 <= (#[trigger] deps.drop_last()[i]).0
            < done.len() by {
            assert(deps.drop_last()[i] == deps[i]);
        }
        lemma_pending_done(deps.drop_last(), done, u, v);
        assert(deps.last() == deps[deps.len() - 1]);
    }
}

/// With no pending dependency into `v`, every dependency into `v` comes
/// from a done node; with some, one comes from a node not done.
pub proof fn lemma_pending_zero(deps: Seq<(int, int)>, done: Seq<bool>, v: int)
    ensures
        pending_into(deps, done, v) == 0 ==> forall|i: int|
            0 <= i < deps.len() && (#[trigger] deps[i]).1 == v ==> done[deps[i].0],
        pending_into(deps, done, v) > 0 ==> exists|i: int|
            0 <= i < deps.len() && (#[trigger] deps[i]).1 == v && !done[deps[i].0],
        pending_into(deps, done, v) <= deps.len(),
    decreases deps.len(),
{
    if deps.len() > 0 {
        lemma_pending_zero(deps.drop_last(), done, v);
        let last = deps.len() - 1;
        assert(deps.last() == deps[last]);
        if pending_into(deps, done, v) == 0 {
            assert forall|i: int| 0 <= i < deps.len() && (#[trigger] deps[i]).1 == v implies done[deps[i].0] by {
                if i < last {
                    assert(deps.drop_last()[i] == deps[i]);
                }
            }
        }
        if pending_into(deps, done, v) > 0 {
            if pending_into(deps.drop_last(), done, v) > 0 {
                let i = choose|i: int|
                    0 <= i < deps.drop_last().len() && (#[trigger] deps.drop_last()[i]).1 == v
                        && !done[deps.drop_last()[i].0];
                assert(deps.drop_last()[i] == deps[i]);
            } else {
                assert(deps[last].1 == v && !done[deps[last].0]);
            }
        }
    }
}

/// Whether `order` runs every node of `0..n` once and runs the source of
/// each dependency before its target.
pub open spec fn is_topological(order: Seq<ExecNodeId>, n: nat, deps: Seq<(int, int)>) -> bool {
    &&& order.len() == n
    &&& forall|i: int, j: int| 0 <= i < j < order.len() ==> order[i] != order[j]
    &&& forall|i: int| 0 <= i < order.len() ==> (#[trigger] order[i]).0 < n
    &&& forall|d: int|
        0 <= d < deps.len() ==> exists|i: int, j: int|
            0 <= i < j < order.len() && order[i].0 == (#[trigger] deps[d]).0 && order[j].0 == deps[d].1
}

/// Whether node `x` depends on a node of `stuck`: some dependency leads
/// into its position from the position of a node of `stuck`.
#[verifier::opaque]
pub open spec fn fed_by(nodes: Seq<(u64, ANodeInstance)>, deps: Seq<(int, int)>, stuck: Seq<u64>, x: u64) -> bool {
    exists|d: int| 0 <= d < deps.len() && deps[d].1 == key_pos(nodes, x) && stuck.contains(nodes[deps[d].0].0)
}

/// Whether every node of `s` is a node of the graph that depends on a node
/// of `s`, as the nodes on a dependency cycle do.
pub open spec fn self_fed(nodes: Seq<(u64, ANodeInstance)>, deps: Seq<(int, int)>, s: Seq<u64>) -> bool {
    forall|k: int| 0 <= k < s.len() ==> has_key(nodes, #[trigger] s[k]) && fed_by(nodes, deps, s, s[k])
}

/// Of the nodes that ran (the first `head` of `ready`), none is in a
/// self-fed set: the first of them to run would have needed another node
/// of the set to run before it.
#[verifier::spinoff_prover]
#[verifier::rlimit(80)]
proof fn lemma_self_fed_never_runs(
    nodes: Seq<(u64, ANodeInstance)>,
    deps: Seq<(int, int)>,
    done: Seq<bool>,
    ready: Seq<usize>,
    head: int,
    s: Seq<u64>,
    j: int,
    k: int,
)
    requires
        keys_distinct(nodes),
        head <= ready.len(),
        forall|d: int| 0 <= d < deps.len() ==> 0 <= (#[trigger] deps[d]).0 < nodes.len() && 0 <= deps[d].1 < nodes.len(),
        forall|i: int, i2: int| 0 <= i < i2 < ready.len() ==> ready[i] != ready[i2],
        forall|i: int| 0 <= i < head ==> #[trigger] done[ready[i] as int],
        forall|d: int|
            0 <= d < deps.len() && done[(#[trigger] deps[d]).1] ==> exists|i: int, i2: int|
                0 <= i < i2 < head && ready[i] == deps[d].0 && ready[i2] == deps[d].1,
        self_fed(nodes, deps, s),
        0 <= j < head,
        0 <= k < s.len(),
    ensures
        ready[j] != key_pos(nodes, s[k]),
    decreases j,
{
    if ready[j] == key_pos(nodes, s[k]) {
        assert(has_key(nodes, s[k]) && fed_by(nodes, deps, s, s[k]));
        reveal(fed_by);
        let d = choose|d: int| 0 <= d < deps.len() && deps[d].1 == key_pos(nodes, s[k]) && s.contains(nodes[deps[d].0].0);
        assert(done[ready[j] as int]);
        assert(done[deps[d].1]);
        let (i, i2) = choose|i: int, i2: int| 0 <= i < i2 < head && ready[i] == deps[d].0 && ready[i2] == deps[d].1;
        assert(i2 == j);
        let m = choose|m: int| 0 <= m < s.len() && s[m] == nodes[deps[d].0].0;
        lemma_key_pos(nodes, deps[d].0);
        lemma_self_fed_never_runs(nodes, deps, done, ready, head, s, i, m);
    }
}

/// The count in a prefix grows by one element at a time and never exceeds
/// the count in the whole sequence.
pub proof fn lemma_count_prefix(s: Seq<int>, k: int, w: int)
    requires
        0 <= k < s.len(),
    ensures
        count_in(s.take(k + 1), w) == count_in(s.take(k), w) + if s[k] == w {
            1nat
        } else {
            0nat
        },
        count_in(s.take(k + 1), w) <= count_in(s, w),
    decreases s.len() - k,
{
    assert(s.take(k + 1).drop_last() =~= s.take(k));
    if k + 1 < s.len() {
        lemma_count_prefix(s, k + 1, w);
    } else {
        assert(s.take(k + 1) =~= s);
    }
}

/// Positions as integers.
pub open spec fn as_ints(s: Seq<usize>) -> Seq<int> {
    s.map_values(|x: usize| x as int)
}

/// Whether `key` is the key of a node among the first `w` positions that
/// still has a pending dependency.
pub open spec fn stuck_key(nodes: Seq<(u64, ANodeInstance)>, indeg: Seq<usize>, w: int, key: u64) -> bool {
    exists|x: int| 0 <= x < w && indeg[x] > 0 && nodes[x].0 == key
}

/// Whether `v` occurs among the positions `s`.
pub open spec fn covers(s: Seq<usize>, v: int) -> bool {
    exists|i: int| 0 <= i < s.len() && s[i] == v
}

/// Distinct positions below `n` are at most `n`; exactly `n` of them cover
/// every position below `n`.
pub proof fn lemma_distinct_positions(s: Seq<usize>, n: nat)
    requires
        forall|i: int| 0 <= i < s.len() ==> (#[trigger] s[i]) < n,
        forall|i: int, j: int| 0 <= i < j < s.len() ==> s[i] != s[j],
    ensures
        s.len() <= n,
        s.len() == n ==> forall|v: int| 0 <= v < n ==> #[trigger] covers(s, v),
        (forall|v: int| 0 <= v < n ==> #[trigger] covers(s, v)) ==> s.len() >= n,
{
    let t = as_ints(s);
    assert(t.no_duplicates()) by {
        assert forall|i: int, j: int| 0 <= i < t.len() && 0 <= j < t.len() && i != j implies t[i] != t[j] by {
            if i < j {
                assert(s[i] != s[j]);
            } else {
                assert(s[j] != s[i]);
            }
        }
    }
    t.unique_seq_to_set();
    let range = set_int_range(0, n as int);
    lemma_int_range(0, n as int);
    assert(t.to_set().subset_of(range)) by {
        assert forall|x: int| t.to_set().contains(x) implies range.contains(x) by {
            let i = choose|i: int| 0 <= i < t.len() && t[i] == x;
            assert(s[i] < n);
        }
    }
    lemma_len_subset(t.to_set(), range);
    if forall|v: int| 0 <= v < n ==> #[trigger] covers(s, v) {
        assert(range.subset_of(t.to_set())) by {
            assert forall|v: int| range.contains(v) implies t.to_set().contains(v) by {
                assert(covers(s, v));
                let i = choose|i: int| 0 <= i < s.len() && s[i] == v;
                assert(t[i] == v);
            }
        }
        lemma_len_subset(range, t.to_set());
    }
    if s.len() == n {
        lemma_subset_equality(t.to_set(), range);
        assert forall|v: int| 0 <= v < n implies #[trigger] covers(s, v) by {
            assert(range.contains(v));
            assert(t.to_set().contains(v));
            let i = choose|i: int| 0 <= i < t.len() && t[i] == v;
            assert(s[i] == v);
        }
    }
}

/// No node done yet.
pub open spec fn none_done(n: nat) -> Seq<bool> {
    Seq::new(n, |v: int| false)
}

/// For each node position, how many dependencies lead into it and the
/// targets of the dependencies out of it.
#[verifier::spinoff_prover]
#[verifier::rlimit(40)]
fn dependency_lists(graph: &AlchemistGraph, breaks_cycle: &Vec<bool>) -> (r: (Vec<usize>, Vec<Vec<usize>>))
    requires
        graph.edges_joined(),
        breaks_cycle@.len() == graph.node_seq().len(),
    ensures
        ({
            let nodes = graph.node_seq();
            let n = nodes.len();
            let deps = deps_spec(nodes, breaks_cycle@, graph.edges@);
            &&& r.0@.len() == n
            &&& r.1@.len() == n
            &&& forall|d: int| 0 <= d < deps.len() ==> 0 <= (#[trigger] deps[d]).0 < n && 0 <= deps[d].1 < n
            &&& forall|v: int| 0 <= v < n ==> r.0@[v] == pending_into(deps, none_done(n), v)
            &&& forall|u: int| 0 <= u < n ==> as_ints(r.1@[u]@) == targets_from(deps, u)
        }),
{
    let n = node_map_len(&graph.nodes);
    let ghost nodes = graph.node_seq();
    let mut indeg: Vec<usize> = Vec::new();
    let mut outgoing: Vec<Vec<usize>> = Vec::new();
    let mut i: usize = 0;
    while i < n
        invariant
            i <= n,
            indeg@.len() == i,
            outgoing@.len() == i,
            forall|v: int| 0 <= v < i ==> indeg@[v] == 0,
            forall|v: int| 0 <= v < i ==> outgoing@[v]@.len() == 0,
        decreases n - i,
    {
        indeg.push(0);
        outgoing.push(Vec::new());
        i = i + 1;
    }
    let ghost none = none_done(n as nat);
    let ghost mut deps: Seq<(int, int)> = Seq::empty();
    let mut e: usize = 0;
    while e < graph.edges.len()
        invariant
            e <= graph.edges@.len(),
            n == nodes.len(),
            nodes == graph.node_seq(),
            graph.edges_joined(),
            breaks_cycle@.len() == n,
            none == none_done(n as nat),
            indeg@.len() == n,
            outgoing@.len() == n,
            deps == deps_spec(nodes, breaks_cycle@, graph.edges@.take(e as int)),
            deps.len() <= e,
            forall|d: int| 0 <= d < deps.len() ==> 0 <= (#[trigger] deps[d]).0 < n && 0 <= deps[d].1 < n,
            forall|v: int| 0 <= v < n ==> indeg@[v] == pending_into(deps, none, v),
            forall|u: int| 0 <= u < n ==> as_ints(outgoing@[u]@) == targets_from(deps, u),
        decreases graph.edges@.len() - e,
    {
        let edge = &graph.edges[e];
        proof {
            assert(crate::graph::edge_in(nodes, graph.edges@[e as int]));
            assert(graph.edges@.take(e + 1).drop_last() =~= graph.edges@.take(e as int));
            assert(graph.edges@.take(e + 1).last() == graph.edges@[e as int]);
        }
        let from = node_map_get_index_of(&graph.nodes, &edge.from.node).unwrap();
        proof {
            lemma_key_pos(nodes, from as int);
        }
        if !breaks_cycle[from] {
            let to = node_map_get_index_of(&graph.nodes, &edge.to.node).unwrap();
            proof {
                lemma_key_pos(nodes, to as int);
                lemma_pending_zero(deps, none, to as int);
            }
            let ghost old_deps = deps;
            let d = indeg[to];
            indeg.set(to, d + 1);
            let mut targets = outgoing[from].clone();
            targets.push(to);
            outgoing.set(from, targets);
            proof {
                deps = deps.push((from as int, to as int));
                assert(deps.drop_last() =~= old_deps);
                assert forall|v: int| 0 <= v < n implies indeg@[v] == pending_into(deps, none, v) by {
                    assert(deps.last() == (from as int, to as int));
                }
                assert forall|u: int| 0 <= u < n implies as_ints(outgoing@[u]@) == targets_from(deps, u) by {
                    if u == from {
                        assert(as_ints(outgoing@[u]@) =~= targets_from(old_deps, u).push(to as int));
                    }
                }
                assert forall|d: int| 0 <= d < deps.len() implies 0 <= (#[trigger] deps[d]).0 < n && 0 <= deps[d].1 < n by {
                    if d < old_deps.len() {
                        assert(deps[d] == old_deps[d]);
                    }
                }
            }
        }
        e = e + 1;
    }
    proof {
        assert(graph.edges@.take(graph.edges@.len() as int) =~= graph.edges@);
    }
    (indeg, outgoing)
}

/// Releases the dependencies of node `u`, which has just run: each target
/// in `targets` loses one pending dependency, and a target left with none
/// is queued at the end of `ready`.
fn release_targets(
    indeg: &mut Vec<usize>,
    ready: &mut Vec<usize>,
    targets: &Vec<usize>,
    n: usize,
    Ghost(deps): Ghost<Seq<(int, int)>>,
    Ghost(old_done): Ghost<Seq<bool>>,
    Ghost(u): Ghost<usize>,
    Ghost(head): Ghost<int>,
)
    requires
        u < n,
        old_done.len() == n,
        !old_done[u as int],
        pending_into(deps, old_done, u as int) == 0,
        1 <= head,
        old(ready)@[head - 1] == u,
        as_ints(targets@) == targets_from(deps, u as int),
        forall|w: int| 0 <= w < n ==> (old_done[w] <==> exists|i: int| 0 <= i < head - 1 && old(ready)@[i] == w),
        forall|d: int|
            0 <= d < deps.len() && old_done[(#[trigger] deps[d]).1] ==> exists|i: int, j2: int|
                0 <= i < j2 < head - 1 && old(ready)@[i] == deps[d].0 && old(ready)@[j2] == deps[d].1,
        old(indeg)@.len() == n,
        forall|d: int| 0 <= d < deps.len() ==> 0 <= (#[trigger] deps[d]).0 < n && 0 <= deps[d].1 < n,
        forall|w: int|
            0 <= w < n ==> old(indeg)@[w] == pending_into(deps, old_done, w),
        head <= old(ready)@.len(),
        forall|i: int| 0 <= i < old(ready)@.len() ==> (#[trigger] old(ready)@[i]) < n,
        forall|i: int, j2: int| 0 <= i < j2 < old(ready)@.len() ==> old(ready)@[i] != old(ready)@[j2],
        forall|w: int| 0 <= w < n ==> (old_done.update(u as int, true)[w] <==> exists|i: int| 0 <= i < head && old(ready)@[i] == w),
        forall|i: int| head <= i < old(ready)@.len() ==> old(indeg)@[(#[trigger] old(ready)@[i]) as int] == 0,
        forall|w: int| 0 <= w < n && old_done[w] ==> old(indeg)@[w] == 0,
        forall|w: int| 0 <= w < n && !old_done.update(u as int, true)[w] && old(indeg)@[w] == 0 ==> exists|i: int| head <= i < old(ready)@.len() && old(ready)@[i] == w,
    ensures
        u < n,
        old_done.len() == n,
        !old_done[u as int],
        pending_into(deps, old_done, u as int) == 0,
        1 <= head,
        final(ready)@[head - 1] == u,
        as_ints(targets@) == targets_from(deps, u as int),
        forall|w: int| 0 <= w < n ==> (old_done[w] <==> exists|i: int| 0 <= i < head - 1 && final(ready)@[i] == w),
        forall|d: int|
            0 <= d < deps.len() && old_done[(#[trigger] deps[d]).1] ==> exists|i: int, j2: int|
                0 <= i < j2 < head - 1 && final(ready)@[i] == deps[d].0 && final(ready)@[j2] == deps[d].1,
        final(indeg)@.len() == n,
        forall|d: int| 0 <= d < deps.len() ==> 0 <= (#[trigger] deps[d]).0 < n && 0 <= deps[d].1 < n,
        forall|w: int|
            0 <= w < n ==> final(indeg)@[w] + count_in(as_ints(targets@), w) == pending_into(deps, old_done, w),
        head <= final(ready)@.len(),
        forall|i: int| 0 <= i < final(ready)@.len() ==> (#[trigger] final(ready)@[i]) < n,
        forall|i: int, j2: int| 0 <= i < j2 < final(ready)@.len() ==> final(ready)@[i] != final(ready)@[j2],
        forall|w: int| 0 <= w < n ==> (old_done.update(u as int, true)[w] <==> exists|i: int| 0 <= i < head && final(ready)@[i] == w),
        forall|i: int| head <= i < final(ready)@.len() ==> final(indeg)@[(#[trigger] final(ready)@[i]) as int] == 0,
        forall|w: int| 0 <= w < n && old_done[w] ==> final(indeg)@[w] == 0,
        forall|w: int| 0 <= w < n && !old_done.update(u as int, true)[w] && final(indeg)@[w] == 0 ==> exists|i: int| head <= i < final(ready)@.len() && final(ready)@[i] == w,
        final(ready)@.len() >= old(ready)@.len(),
        forall|i: int| 0 <= i < old(ready)@.len() ==> final(ready)@[i] == old(ready)@[i],
{
    let ghost done = old_done.update(u as int, true);
    let mut j: usize = 0;
    while j < targets.len()
        invariant
            j <= targets@.len(),
            u < n,
            old_done.len() == n,
            !old_done[u as int],
            done == old_done.update(u as int, true),
            pending_into(deps, old_done, u as int) == 0,
            1 <= head,
            ready@[head - 1] == u,
            as_ints(targets@) == targets_from(deps, u as int),
            forall|w: int| 0 <= w < n ==> (old_done[w] <==> exists|i: int| 0 <= i < head - 1 && ready@[i] == w),
            forall|d: int|
                0 <= d < deps.len() && old_done[(#[trigger] deps[d]).1] ==> exists|i: int, j2: int|
                    0 <= i < j2 < head - 1 && ready@[i] == deps[d].0 && ready@[j2] == deps[d].1,
            indeg@.len() == n,
            forall|d: int| 0 <= d < deps.len() ==> 0 <= (#[trigger] deps[d]).0 < n && 0 <= deps[d].1 < n,
            forall|w: int|
                0 <= w < n ==> indeg@[w] + count_in(as_ints(targets@).take(j as int), w) == pending_into(deps, old_done, w),
            head <= ready@.len(),
            forall|i: int| 0 <= i < ready@.len() ==> (#[trigger] ready@[i]) < n,
            forall|i: int, j2: int| 0 <= i < j2 < ready@.len() ==> ready@[i] != ready@[j2],
            forall|w: int| 0 <= w < n ==> (done[w] <==> exists|i: int| 0 <= i < head && ready@[i] == w),
            forall|i: int| head <= i < ready@.len() ==> indeg@[(#[trigger] ready@[i]) as int] == 0,
            forall|w: int| 0 <= w < n && old_done[w] ==> indeg@[w] == 0,
            forall|w: int| 0 <= w < n && !done[w] && indeg@[w] == 0 ==> exists|i: int| head <= i < ready@.len() && ready@[i] == w,
            forall|i: int| 0 <= i < old(ready)@.len() ==> ready@[i] == old(ready)@[i],
            ready@.len() >= old(ready)@.len(),
        decreases targets@.len() - j,
{
        let t = targets[j];
        proof {
            let o = as_ints(targets@);
            assert(o[j as int] == t as int);
            assert(targets_from(deps, u as int) == o);
            lemma_count_prefix(o, j as int, t as int);
            lemma_targets_count(deps, u as int, t as int);
            lemma_pending_done(deps, old_done, u as int, t as int);
            lemma_pending_zero(deps, old_done, t as int);
            assert(indeg@[t as int] >= 1);
            if old_done[t as int] {
                assert(indeg@[t as int] == 0);
            }
            assert(t != u);
            assert(!done[t as int]);
            assert forall|i: int| 0 <= i < ready@.len() implies ready@[i] != t by {
                if i >= head {
                    assert(indeg@[ready@[i] as int] == 0);
                } else {
                    assert(done[ready@[i] as int]);
                }
            }
        }
        let d = indeg[t];
        let ghost indeg_before = indeg@;
        let ghost ready_before = ready@;
        indeg.set(t, d - 1);
        if d - 1 == 0 {
            let ghost before = ready@;
            ready.push(t);
            proof {
                assert forall|w: int|
                    0 <= w < n && !done[w] && indeg@[w] == 0 implies exists|i: int|
                        head <= i < ready@.len() && ready@[i] == w by {
                    if w == t as int {
                        assert(ready@[before.len() as int] == w);
                    } else {
                        assert(indeg@[w] == indeg_before[w]);
                        let i = choose|i: int| head <= i < before.len() && before[i] == w;
                        assert(ready@[i] == w);
                    }
                }
                assert forall|w: int| 0 <= w < n implies (old_done[w] <==> exists|i: int|
                    0 <= i < head - 1 && ready@[i] == w) by {
                    if old_done[w] {
                        let i = choose|i: int| 0 <= i < head - 1 && before[i] == w;
                        assert(ready@[i] == w);
                    }
                    if exists|i: int| 0 <= i < head - 1 && ready@[i] == w {
                        let i = choose|i: int| 0 <= i < head - 1 && ready@[i] == w;
                        assert(before[i] == w);
                    }
                }
                assert forall|w: int| 0 <= w < n implies (done[w] <==> exists|i: int|
                    0 <= i < head && ready@[i] == w) by {
                    if done[w] {
                        let i = choose|i: int| 0 <= i < head && before[i] == w;
                        assert(ready@[i] == w);
                    }
                    if exists|i: int| 0 <= i < head && ready@[i] == w {
                        let i = choose|i: int| 0 <= i < head && ready@[i] == w;
                        assert(before[i] == w);
                    }
                }
                assert forall|dd: int|
                    0 <= dd < deps.len() && old_done[(#[trigger] deps[dd]).1] implies exists|i: int, j2: int|
                        0 <= i < j2 < head - 1 && ready@[i] == deps[dd].0 && ready@[j2] == deps[dd].1 by {
                    let (i, j2) = choose|i: int, j2: int|
                        0 <= i < j2 < head - 1 && before[i] == deps[dd].0 && before[j2] == deps[dd].1;
                    assert(ready@[i] == before[i] && ready@[j2] == before[j2]);
                }
            }
        } else {
            proof {
                assert forall|w: int|
                    0 <= w < n && !done[w] && indeg@[w] == 0 implies exists|i: int|
                        head <= i < ready@.len() && ready@[i] == w by {
                    assert(w != t as int);
                    assert(indeg@[w] == indeg_before[w]);
                }
            }
        }
        proof {
            let o = as_ints(targets@);
            assert forall|w: int| 0 <= w < n implies indeg@[w] + count_in(o.take(j + 1), w) == pending_into(
                deps,
                old_done,
                w,
            ) by {
                lemma_count_prefix(o, j as int, w);
            }
        }
        j = j + 1;
    }
    proof {
        assert(as_ints(targets@).take(targets@.len() as int) =~= as_ints(targets@));
    }
}

/// The nodes whose position has a pending dependency, in graph order.
fn stuck_nodes(graph: &AlchemistGraph, indeg: &Vec<usize>) -> (stuck: Vec<ANodeId>)
    requires
        graph.edges_joined(),
        indeg@.len() == graph.node_seq().len(),
    ensures
        forall|i: int|
            0 <= i < stuck@.len() ==> stuck_key(graph.node_seq(), indeg@, indeg@.len() as int, #[trigger] stuck@[i]),
        forall|x: int| 0 <= x < indeg@.len() && indeg@[x] > 0 ==> stuck@.contains(graph.node_seq()[x].0),
{
    let n = indeg.len();
    let ghost nodes = graph.node_seq();
    let mut stuck: Vec<ANodeId> = Vec::new();
    let mut w: usize = 0;
    while w < n
        invariant
            w <= n,
            n == nodes.len(),
            nodes == graph.node_seq(),
            keys_distinct(nodes),
            indeg@.len() == n,
            forall|i: int| 0 <= i < stuck@.len() ==> stuck_key(nodes, indeg@, w as int, #[trigger] stuck@[i]),
            forall|x: int| 0 <= x < w && indeg@[x] > 0 ==> stuck@.contains(nodes[x].0),
        decreases n - w,
    {
        if indeg[w] > 0 {
            let (key, _) = node_map_get_index(&graph.nodes, w).unwrap();
            let ghost before = stuck@;
            stuck.push(*key);
            proof {
                assert forall|x: int| 0 <= x < w + 1 && indeg@[x] > 0 implies stuck@.contains(nodes[x].0) by {
                    if x < w {
                        assert(before.contains(nodes[x].0));
                        let k = choose|k: int| 0 <= k < before.len() && before[k] == nodes[x].0;
                        assert(stuck@[k] == nodes[x].0);
                    } else {
                        assert(stuck@[before.len() as int] == nodes[x].0);
                    }
                }
                assert forall|i: int| 0 <= i < stuck@.len() implies stuck_key(nodes, indeg@, w + 1, #[trigger] stuck@[i]) by {
                    if i < before.len() {
                        assert(stuck@[i] == before[i]);
                        assert(stuck_key(nodes, indeg@, w as int, before[i]));
                    } else {
                        assert(nodes[w as int].0 == stuck@[i]);
                    }
                }
            }
        }
        w = w + 1;
    }
    stuck
}

/// The order in which the nodes of `graph` run, by Kahn's algorithm: the
/// nodes without pending dependencies run first, in graph order, and each
/// node runs once every node it depends on has run. An edge out of a node
/// that breaks dependency cycles (`breaks_cycle`, by node position) makes
/// no dependency.
///
/// When the dependencies form a cycle, returns the nodes that could not
/// run, in graph order: each of them depends on another of them, and every
/// node of a set whose nodes each depend on another of the set (as the
/// nodes of a cycle do) is among them.
pub fn topological_order(graph: &AlchemistGraph, breaks_cycle: &Vec<bool>) -> (r: Result<Vec<ExecNodeId>, Vec<ANodeId>>)
    requires
        graph.edges_joined(),
        breaks_cycle@.len() == graph.node_seq().len(),
        graph.node_seq().len() <= u32::MAX,
    ensures
        ({
            let nodes = graph.node_seq();
            let deps = deps_spec(nodes, breaks_cycle@, graph.edges@);
            match r {
                Ok(order) => is_topological(order@, nodes.len(), deps),
                Err(stuck) => {
                    &&& stuck@.len() > 0
                    &&& forall|i: int| 0 <= i < stuck@.len() ==> has_key(nodes, #[trigger] stuck@[i])
                    &&& forall|i: int| 0 <= i < stuck@.len() ==> fed_by(nodes, deps, stuck@, #[trigger] stuck@[i])
                    &&& forall|s: Seq<u64>, k: int|
                        #![trigger self_fed(nodes, deps, s), s[k]]
                        self_fed(nodes, deps, s) && 0 <= k < s.len() ==> stuck@.contains(s[k])
                },
            }
        }),
{
    let n = node_map_len(&graph.nodes);
    let ghost nodes = graph.node_seq();
    let ghost deps = deps_spec(nodes, breaks_cycle@, graph.edges@);
    let ghost none = none_done(n as nat);
    let (mut indeg, outgoing) = dependency_lists(graph, breaks_cycle);
    let mut ready: Vec<usize> = Vec::new();
    let mut v: usize = 0;
    while v < n
        invariant
            v <= n,
            indeg@.len() == n,
            forall|i: int| 0 <= i < ready@.len() ==> (#[trigger] ready@[i]) < v && indeg@[ready@[i] as int] == 0,
            forall|i: int, j: int| 0 <= i < j < ready@.len() ==> ready@[i] < ready@[j],
            forall|w: int| 0 <= w < v && indeg@[w] == 0 ==> covers(ready@, w),
        decreases n - v,
    {
        if indeg[v] == 0 {
            let ghost before = ready@;
            ready.push(v);
            proof {
                assert forall|w: int| 0 <= w < v + 1 && indeg@[w] == 0 implies covers(ready@, w) by {
                    if w < v {
                        assert(covers(before, w));
                        let i = choose|i: int| 0 <= i < before.len() && before[i] == w;
                        assert(ready@[i] == w);
                    } else {
                        assert(ready@[before.len() as int] == w);
                    }
                }
            }
        }
        v = v + 1;
    }
    let ghost mut done = none;
    let mut order: Vec<ExecNodeId> = Vec::new();
    let mut head: usize = 0;
    proof {
        lemma_distinct_positions(ready@, n as nat);
        assert forall|w: int| 0 <= w < n && !none[w] && indeg@[w] == 0 implies exists|i: int|
            0 <= i < ready@.len() && ready@[i] == w by {
            assert(covers(ready@, w));
        }
    }
    while head < ready.len()
        invariant
            n == nodes.len(),
            n <= u32::MAX,
            indeg@.len() == n,
            outgoing@.len() == n,
            done.len() == n,
            forall|d: int| 0 <= d < deps.len() ==> 0 <= (#[trigger] deps[d]).0 < n && 0 <= deps[d].1 < n,
            forall|u: int| 0 <= u < n ==> as_ints(outgoing@[u]@) == targets_from(deps, u),
            forall|w: int| 0 <= w < n ==> indeg@[w] == pending_into(deps, done, w),
            head <= ready@.len(),
            ready@.len() <= n,
            forall|i: int| 0 <= i < ready@.len() ==> (#[trigger] ready@[i]) < n,
            forall|i: int, j: int| 0 <= i < j < ready@.len() ==> ready@[i] != ready@[j],
            forall|w: int| 0 <= w < n ==> (done[w] <==> exists|i: int| 0 <= i < head && ready@[i] == w),
            forall|i: int| head <= i < ready@.len() ==> indeg@[(#[trigger] ready@[i]) as int] == 0,
            forall|w: int| 0 <= w < n && done[w] ==> indeg@[w] == 0,
            forall|w: int|
                0 <= w < n && !done[w] && indeg@[w] == 0 ==> exists|i: int|
                    head <= i < ready@.len() && ready@[i] == w,
            order@.len() == head,
            forall|i: int| 0 <= i < head ==> (#[trigger] order@[i]).0 == ready@[i],
            forall|d: int|
                0 <= d < deps.len() && done[(#[trigger] deps[d]).1] ==> exists|i: int, j: int|
                    0 <= i < j < head && ready@[i] == deps[d].0 && ready@[j] == deps[d].1,
        decreases n - head,
    {
        let u = ready[head];
        order.push(ExecNodeId::new(u as u32));
        let ghost old_done = done;
        let ghost old_head = head;
        proof {
            if done[u as int] {
                let i = choose|i: int| 0 <= i < head && ready@[i] == u;
                assert(ready@[i] != ready@[head as int]);
            }
            lemma_pending_zero(deps, done, u as int);
            done = done.update(u as int, true);
            assert forall|w: int| 0 <= w < n && !done[w] && indeg@[w] == 0 implies exists|i: int|
                head + 1 <= i < ready@.len() && ready@[i] == w by {
                let i = choose|i: int| head <= i < ready@.len() && ready@[i] == w;
                assert(i != head);
            }
            assert forall|w: int| 0 <= w < n implies (done[w] <==> exists|i: int| 0 <= i < head + 1 && ready@[i] == w) by {
                if w == u as int {
                    assert(ready@[head as int] == w);
                } else if exists|i: int| 0 <= i < head + 1 && ready@[i] == w {
                    let i = choose|i: int| 0 <= i < head + 1 && ready@[i] == w;
                    assert(i != head);
                }
            }
        }
        head = head + 1;
        release_targets(
            &mut indeg,
            &mut ready,
            &outgoing[u],
            n,
            Ghost(deps),
            Ghost(old_done),
            Ghost(u),
            Ghost(head as int),
        );
        proof {
            let o = as_ints(outgoing@[u as int]@);
            assert forall|w: int| 0 <= w < n implies indeg@[w] == pending_into(deps, done, w) by {
                lemma_targets_count(deps, u as int, w);
                lemma_pending_done(deps, old_done, u as int, w);
            }
            assert forall|d: int|
                0 <= d < deps.len() && done[(#[trigger] deps[d]).1] implies exists|i: int, j2: int|
                    0 <= i < j2 < head && ready@[i] == deps[d].0 && ready@[j2] == deps[d].1 by {
                if deps[d].1 == u as int {
                    lemma_pending_zero(deps, old_done, u as int);
                    assert(old_done[deps[d].0]);
                    let i = choose|i: int| 0 <= i < head - 1 && ready@[i] == deps[d].0;
                    assert(ready@[head - 1] == u);
                } else {
                    assert(old_done[deps[d].1]);
                    let (i, j2) = choose|i: int, j2: int|
                        0 <= i < j2 < head - 1 && ready@[i] == deps[d].0 && ready@[j2] == deps[d].1;
                }
            }
            assert forall|i: int| 0 <= i < head implies (#[trigger] order@[i]).0 == ready@[i] by {
                if i < old_head {
                } else {
                    assert(order@[i].0 == u);
                }
            }
            lemma_pending_done(deps, old_done, u as int, u as int);
            lemma_distinct_positions(ready@, n as nat);
        }
    }
    proof {
        lemma_distinct_positions(ready@, n as nat);
    }
    if order.len() == n {
        proof {
            assert forall|w: int| 0 <= w < n implies done[w] by {
                assert(covers(ready@, w));
                let i = choose|i: int| 0 <= i < ready@.len() && ready@[i] == w;
            }
            assert forall|i: int| 0 <= i < order@.len() implies (#[trigger] order@[i]).0 < n by {
                assert(order@[i].0 == ready@[i]);
            }
            assert forall|i: int, j2: int| 0 <= i < j2 < order@.len() implies order@[i] != order@[j2] by {
                assert(ready@[i] != ready@[j2]);
            }
            assert forall|d: int| 0 <= d < deps.len() implies exists|i: int, j2: int|
                0 <= i < j2 < order@.len() && order@[i].0 == (#[trigger] deps[d]).0 && order@[j2].0 == deps[d].1 by {
                assert(done[deps[d].1]);
                let (i, j2) = choose|i: int, j2: int|
                    0 <= i < j2 < head && ready@[i] == deps[d].0 && ready@[j2] == deps[d].1;
                assert(order@[i].0 == ready@[i] && order@[j2].0 == ready@[j2]);
            }
        }
        return Ok(order);
    }
    let stuck = stuck_nodes(graph, &indeg);
    proof {
        assert(exists|x: int| 0 <= x < n && !done[x]) by {
            if forall|x: int| 0 <= x < n ==> done[x] {
                assert forall|x: int| 0 <= x < n implies #[trigger] covers(ready@, x) by {
                    assert(done[x]);
                    let i = choose|i: int| 0 <= i < head && ready@[i] == x;
                }
            }
        }
        let x = choose|x: int| 0 <= x < n && !done[x];
        assert(indeg@[x] > 0);
        assert(stuck@.contains(nodes[x].0));
        assert forall|i: int| 0 <= i < stuck@.len() implies has_key(nodes, #[trigger] stuck@[i]) by {
            assert(stuck_key(nodes, indeg@, n as int, stuck@[i]));
            let y = choose|y: int| 0 <= y < n && indeg@[y] > 0 && nodes[y].0 == stuck@[i];
        }
        assert forall|i: int| 0 <= i < stuck@.len() implies fed_by(nodes, deps, stuck@, #[trigger] stuck@[i]) by {
            reveal(fed_by);
            assert(stuck_key(nodes, indeg@, n as int, stuck@[i]));
            let y = choose|y: int| 0 <= y < n && indeg@[y] > 0 && nodes[y].0 == stuck@[i];
            lemma_key_pos(nodes, y);
            lemma_pending_zero(deps, done, y);
            let d = choose|d: int| 0 <= d < deps.len() && (#[trigger] deps[d]).1 == y && !done[deps[d].0];
            let a = deps[d].0;
            assert(indeg@[a] > 0);
        }
        assert forall|s: Seq<u64>, k: int| self_fed(nodes, deps, s) && 0 <= k < s.len() implies stuck@.contains(s[k]) by {
            assert(has_key(nodes, s[k]));
            let p = key_pos(nodes, s[k]);
            if done[p] {
                let i = choose|i: int| 0 <= i < head && ready@[i] == p;
                assert forall|i3: int| 0 <= i3 < head implies #[trigger] done[ready@[i3] as int] by {
                    assert(ready@[i3] < n);
                }
                lemma_self_fed_never_runs(nodes, deps, done, ready@, head as int, s, i, k);
            }
            assert(indeg@[p] > 0);
            assert(nodes[p].0 == s[k]);
        }
    }
    Err(stuck)
}
/// Where a node input takes its value from.
#[derive(Debug)]
pub enum InputValueSource {
    /// The value in a slot of the value memory.
    Slot(ValueSlotId),
    /// A value converted to `target_type`.
    Converted { source: Box<InputValueSource>, target_type: ValueTypeId },
    /// One component of a value.
    Component { source: Box<InputValueSource>, component: ValueComponent },
    /// A value of `target_type` built from a base with some components replaced.
    Composite {
        target_type: ValueTypeId,
        base: Box<InputValueSource>,
        components: Vec<(ValueComponent, InputValueSource)>,
    },
    /// A fixed value.
    Constant(RuntimeValue),
    Unset,
}

/// How a disabled node produces one output: passed through from an input,
/// or a default value.
#[derive(Debug)]
pub struct DisabledOutput {
    pub input_index: Option<usize>,
    pub default_value: RuntimeValue,
}

/// Where each node's state lives in the state memory, and the memory sizes.
#[derive(Debug)]
pub struct RuntimeStateLayout {
    pub ranges: Vec<(usize, usize)>,
    pub state_slot_count: usize,
    pub value_slot_count: usize,
}

/// A property of a compiled formula, with the slot it is read from.
#[derive(Debug)]
pub struct CompiledFormulaProperty {
    pub id: FormulaPropertyId,
    pub slot: FormulaPropertySlotId,
    pub value_type: ValueTypeId,
    pub default_value: RuntimeValue,
}

/// The compiled properties of a formula, keyed by identifier.
#[derive(Debug)]
pub struct CompiledFormulaPropertySchema {
    pub properties: IndexMap<FormulaPropertyId, CompiledFormulaProperty>,
}

impl CompiledFormulaPropertySchema {
    /// The properties, as entries keyed by identifier.
    pub open spec fn entries(&self) -> Seq<(Seq<char>, CompiledFormulaProperty)> {
        compiled_property_entries(self.properties)
    }

    /// No properties.
    pub fn new() -> (s: Self)
        ensures
            s.entries().len() == 0,
    {
        CompiledFormulaPropertySchema { properties: compiled_property_map_new() }
    }

    /// The property `id`, if any.
    pub fn get(&self, id: &FormulaPropertyId) -> (r: Option<&CompiledFormulaProperty>)
        ensures
            r is Some <==> crate::ordered::has_key(self.entries(), id@),
            r matches Some(p) ==> *p == value_of(self.entries(), id@),
    {
        compiled_property_map_get(&self.properties, id)
    }

    /// The first property read from `slot`, if any.
    pub fn get_slot(&self, slot: FormulaPropertySlotId) -> (r: Option<&CompiledFormulaProperty>)
        ensures
            r is None <==> forall|i: int| 0 <= i < self.entries().len() ==> (#[trigger] self.entries()[i]).1.slot != slot,
            r matches Some(p) ==> exists|i: int|
                0 <= i < self.entries().len() && (#[trigger] self.entries()[i]).1 == *p && p.slot == slot && forall|j: int|
                    0 <= j < i ==> self.entries()[j].1.slot != slot,
    {
        let n = compiled_property_map_len(&self.properties);
        let mut i: usize = 0;
        while i < n
            invariant
                i <= n,
                n == self.entries().len(),
                forall|j: int| 0 <= j < i ==> (#[trigger] self.entries()[j]).1.slot != slot,
            decreases n - i,
        {
            let (_, property) = compiled_property_map_get_index(&self.properties, i).unwrap();
            if property.slot == slot {
                return Some(property);
            }
            i = i + 1;
        }
        None
    }

    /// The number of properties.
    pub fn len(&self) -> (r: usize)
        ensures
            r == self.entries().len(),
    {
        compiled_property_map_len(&self.properties)
    }

    /// Whether there are no properties.
    pub fn is_empty(&self) -> (r: bool)
        ensures
            r == (self.entries().len() == 0),
    {
        compiled_property_map_len(&self.properties) == 0
    }
}

/// A runtime subscription of a compiled node to an outside source.
#[derive(Clone, Debug, PartialEq, Eq)]
pub struct RuntimeSubscription {
    pub exec_node: ExecNodeId,
    pub source: String,
}

/// Where an output of the compiled graph comes from.
#[derive(Clone, Copy, Debug, PartialEq, Eq, Structural)]
pub struct OutputRoute {
    pub exec_node: ExecNodeId,
    pub socket_index: usize,
}

/// For each compiled node, the authored node it comes from.
#[derive(Clone, Debug, PartialEq, Eq)]
pub struct DebugSourceMap {
    pub exec_to_authored: Vec<ANodeId>,
}

/// What a compiled formula depends on, for caching compiled results.
#[derive(Clone, Debug, PartialEq, Eq, Hash)]
pub struct FormulaCompileKey {
    pub formula_id: FormulaId,
    pub formula_version: u32,
    pub graph_revision: u64,
    pub property_schema_hash: u64,
    pub node_registry_hash: u64,
    pub value_type_registry_hash: u64,
}

/// The codes of the findings about property `d` stored under `key`: its key
/// must be its identifier, its type must be registered, and its default
/// value must be of its type.
pub open spec fn property_findings(
    key: Seq<char>,
    d: crate::formula::FormulaPropertyDecl,
    entries: Seq<(Seq<char>, crate::registry::ValueTypeDescriptor)>,
) -> Seq<Seq<char>> {
    let a = if key != d.id@ {
        seq!["property_schema_id_mismatch"@]
    } else {
        Seq::empty()
    };
    let b = if !crate::ordered::has_key(entries, d.value_type@) {
        a.push("unknown_property_value_type"@)
    } else {
        a
    };
    if value_type_of(d.default_value) != d.value_type@ {
        b.push("invalid_property_default_type"@)
    } else {
        b
    }
}

/// The compiled properties and finding codes after the first `n` properties.
pub open spec fn compile_properties_spec(
    props: Seq<(Seq<char>, crate::formula::FormulaPropertyDecl)>,
    entries: Seq<(Seq<char>, crate::registry::ValueTypeDescriptor)>,
    n: nat,
) -> (Seq<(Seq<char>, (FormulaPropertySlotId, Seq<char>))>, Seq<Seq<char>>)
    decreases n,
{
    if n == 0 || n > props.len() {
        (Seq::empty(), Seq::empty())
    } else {
        let (compiled, codes) = compile_properties_spec(props, entries, (n - 1) as nat);
        let (key, d) = props[n - 1];
        (
            entries_insert(compiled, key, (FormulaPropertySlotId((n - 1) as u32), d.value_type@)),
            codes + property_findings(key, d, entries),
        )
    }
}

/// The compiled properties, as (key, (slot, type)).
pub open spec fn compiled_view(s: Seq<(Seq<char>, CompiledFormulaProperty)>) -> Seq<(Seq<char>, (FormulaPropertySlotId, Seq<char>))> {
    s.map_values(|e: (Seq<char>, CompiledFormulaProperty)| (e.0, (e.1.slot, e.1.value_type@)))
}

/// With distinct keys, viewing the compiled properties commutes with
/// inserting one.
pub proof fn lemma_compiled_view_insert(
    s: Seq<(Seq<char>, CompiledFormulaProperty)>,
    k: Seq<char>,
    v: CompiledFormulaProperty,
)
    requires
        crate::ordered::keys_distinct(s),
    ensures
        compiled_view(entries_insert(s, k, v)) =~= entries_insert(compiled_view(s), k, (v.slot, v.value_type@)),
{
    let m = compiled_view(s);
    if crate::ordered::has_key(s, k) {
        let p = key_pos(s, k);
        assert(m[p].0 == k);
        assert(crate::ordered::has_key(m, k));
        let q = key_pos(m, k);
        assert(s[q].0 == m[q].0);
        lemma_key_pos(s, q);
    } else {
        if crate::ordered::has_key(m, k) {
            let q = key_pos(m, k);
            assert(s[q].0 == k);
        }
    }
}

/// The codes of a list of diagnostics.
pub open spec fn codes(d: Seq<Diagnostic>) -> Seq<Seq<char>> {
    d.map_values(|x: Diagnostic| x.code@)
}

/// Compiles the property schema: each property gets the slot of its
/// position; findings about it are appended to `diagnostics` as errors of
/// the graph.
pub fn compile_property_schema(
    schema: Option<&FormulaPropertySchema>,
    value_types: &ValueTypeRegistry,
    diagnostics: &mut Vec<Diagnostic>,
) -> (r: CompiledFormulaPropertySchema)
    requires
        schema matches Some(s) ==> s.entries().len() <= u32::MAX,
    ensures
        match schema {
            None => r.entries().len() == 0 && final(diagnostics)@ == old(diagnostics)@,
            Some(s) => {
                let (compiled, found) = compile_properties_spec(s.entries(), value_types.entries(), s.entries().len());
                &&& compiled_view(r.entries()) == compiled
                &&& final(diagnostics)@.len() >= old(diagnostics)@.len()
                &&& final(diagnostics)@.take(old(diagnostics)@.len() as int) == old(diagnostics)@
                &&& codes(final(diagnostics)@.skip(old(diagnostics)@.len() as int)) == found
                &&& forall|i: int|
                    old(diagnostics)@.len() <= i < final(diagnostics)@.len() ==> (#[trigger] final(diagnostics)@[i]).severity
                        == DiagnosticSeverity::Error && final(diagnostics)@[i].origin == DiagnosticOrigin::Graph
            },
        },
{
    let schema = match schema {
        None => {
            return CompiledFormulaPropertySchema::new();
        },
        Some(s) => s,
    };
    let ghost start = diagnostics@;
    let mut properties = compiled_property_map_new();
    let n = schema.len();
    let mut index: usize = 0;
    while index < n
        invariant
            index <= n,
            n == schema.entries().len(),
            n <= u32::MAX,
            diagnostics@.len() >= start.len(),
            diagnostics@.take(start.len() as int) == start,
            crate::ordered::keys_distinct(compiled_property_entries(properties)),
            ({
                let (compiled, found) = compile_properties_spec(schema.entries(), value_types.entries(), index as nat);
                &&& compiled_view(compiled_property_entries(properties)) == compiled
                &&& codes(diagnostics@.skip(start.len() as int)) == found
            }),
            forall|i: int|
                start.len() <= i < diagnostics@.len() ==> (#[trigger] diagnostics@[i]).severity
                    == DiagnosticSeverity::Error && diagnostics@[i].origin == DiagnosticOrigin::Graph,
        decreases n - index,
    {
        let (id, declaration) = schema.entry_at(index).unwrap();
        let ghost before = diagnostics@;
        if *id != declaration.id {
            let head = concat3("property schema key `", id.as_str(), "` does not match declaration id `");
            diagnostics.push(
                Diagnostic::error(
                    "property_schema_id_mismatch",
                    concat3(head.as_str(), declaration.id.as_str(), "`"),
                    DiagnosticOrigin::Graph,
                ),
            );
        }
        if !value_types.contains(&declaration.value_type) {
            let head = concat3("property `", id.as_str(), "` declares unknown value type `");
            diagnostics.push(
                Diagnostic::error(
                    "unknown_property_value_type",
                    concat3(head.as_str(), declaration.value_type.as_str(), "`"),
                    DiagnosticOrigin::Graph,
                ),
            );
        }
        let actual = declaration.default_value.value_type();
        if actual != declaration.value_type {
            let head = concat3("property `", id.as_str(), "` default has type `");
            let middle = concat3(head.as_str(), actual.as_str(), "`, expected `");
            diagnostics.push(
                Diagnostic::error(
                    "invalid_property_default_type",
                    concat3(middle.as_str(), declaration.value_type.as_str(), "`"),
                    DiagnosticOrigin::Graph,
                ),
            );
        }
        let ghost before_props = compiled_property_entries(properties);
        compiled_property_map_insert(
            &mut properties,
            id.clone(),
            CompiledFormulaProperty {
                id: id.clone(),
                slot: FormulaPropertySlotId::new(index as u32),
                value_type: declaration.value_type.clone(),
                default_value: declaration.default_value.clone(),
            },
        );
        proof {
            reveal_strlit("property_schema_id_mismatch");
            assert(diagnostics@.take(start.len() as int) =~= start);
            let added = diagnostics@.skip(before.len() as int);
            assert(codes(diagnostics@.skip(start.len() as int)) =~= codes(before.skip(start.len() as int)) + codes(added));
            assert(codes(added) =~= property_findings(id@, *declaration, value_types.entries()));
            let v = CompiledFormulaProperty {
                id: *id,
                slot: FormulaPropertySlotId(index as u32),
                value_type: declaration.value_type,
                default_value: compiled_property_entries(properties)[key_pos(compiled_property_entries(properties), id@)].1.default_value,
            };
            lemma_compiled_view_insert(before_props, id@, value_of(compiled_property_entries(properties), id@));
            crate::ordered::lemma_insert(before_props, id@, value_of(compiled_property_entries(properties), id@), id@);
        }
        index = index + 1;
    }
    CompiledFormulaPropertySchema { properties }
}


/// The property a property node reads: the text of its `property_id`
/// field, when that field holds a non-empty string.
pub open spec fn config_property_id(entries: Seq<(Seq<char>, RuntimeValue)>) -> Option<Seq<char>> {
    if has_key(entries, "property_id"@) {
        match value_of(entries, "property_id"@) {
            RuntimeValue::String(s) => if s@.len() > 0 { Some(s@) } else { None },
            _ => None,
        }
    } else {
        None
    }
}

/// The property that a property node reads, from its configuration.
pub fn property_id_from_config(instance: &ANodeInstance) -> (r: Option<FormulaPropertyId>)
    ensures
        r matches Some(id) ==> config_property_id(instance.config.entries()) == Some(id@),
        r is None ==> config_property_id(instance.config.entries()) is None,
{
    match instance.config.get("property_id") {
        Some(RuntimeValue::String(value)) => {
            if value.as_str().is_empty() {
                None
            } else {
                Some(FormulaPropertyId::new(value.as_str()))
            }
        },
        _ => None,
    }
}

/// Compiles a property node: the slot that it reads, or why it cannot be
/// read (an error about the node).
pub fn compile_property_operation(
    instance: &ANodeInstance,
    properties: &CompiledFormulaPropertySchema,
) -> (r: Result<FormulaPropertySlotId, Diagnostic>)
    ensures
        match config_property_id(instance.config.entries()) {
            None => r matches Err(d) && d.code@ == "missing_property_id"@ && d.message@
                == "property node is missing a stable property_id"@,
            Some(id) => if has_key(properties.entries(), id) {
                r == Ok::<FormulaPropertySlotId, Diagnostic>(value_of(properties.entries(), id).slot)
            } else {
                r matches Err(d) && d.code@ == "missing_property_declaration"@ && d.message@
                    == "property node references missing property `"@ + id + "`"@
            },
        },
        r matches Err(d) ==> d.severity == DiagnosticSeverity::Error && d.origin == DiagnosticOrigin::Node(instance.id),
{
    let property_id = match property_id_from_config(instance) {
        None => {
            return Err(
                Diagnostic::error(
                    "missing_property_id",
                    "property node is missing a stable property_id".to_owned(),
                    DiagnosticOrigin::Node(instance.id),
                ),
            );
        },
        Some(id) => id,
    };
    match properties.get(&property_id) {
        None => Err(
            Diagnostic::error(
                "missing_property_declaration",
                concat3("property node references missing property `", property_id.as_str(), "`"),
                DiagnosticOrigin::Node(instance.id),
            ),
        ),
        Some(property) => Ok(property.slot),
    }
}


/// Whether two optional value types are both known and the same.
pub open spec fn same_known_type(a: Option<ValueTypeId>, b: Option<ValueTypeId>) -> bool {
    match (a, b) {
        (Some(x), Some(y)) => x@ == y@,
        _ => false,
    }
}

/// The input a disabled node passes through: its only input, when it has
/// one input and one output of the same known type.
pub open spec fn bypass_spec(inputs: Seq<(Seq<char>, ResolvedSocket)>, outputs: Seq<(Seq<char>, ResolvedSocket)>) -> Option<usize> {
    if inputs.len() == 1 && outputs.len() == 1 && same_known_type(inputs[0].1.value_type, outputs[0].1.value_type) {
        Some(0)
    } else {
        None
    }
}

/// The input that a disabled node passes through to its output, if any.
pub fn disabled_bypass_input(signature: &ResolvedANodeSignature) -> (r: Option<usize>)
    ensures
        r == bypass_spec(signature.input_entries(), signature.output_entries()),
{
    if resolved_socket_map_len(&signature.inputs) != 1 || resolved_socket_map_len(&signature.outputs) != 1 {
        return None;
    }
    let (_, input) = resolved_socket_map_get_index(&signature.inputs, 0).unwrap();
    let (_, output) = resolved_socket_map_get_index(&signature.outputs, 0).unwrap();
    match (&input.value_type, &output.value_type) {
        (Some(a), Some(b)) => {
            if crate::text::str_eq(a.as_str(), b.as_str()) {
                Some(0)
            } else {
                None
            }
        },
        _ => None,
    }
}

/// What a disabled node gives on an output of type `value_type`: the
/// registered default of that type, else the unit value.
pub open spec fn disabled_default_ok(
    value_type: Option<ValueTypeId>,
    registry: Seq<(Seq<char>, crate::registry::ValueTypeDescriptor)>,
    v: RuntimeValue,
) -> bool {
    match value_type {
        Some(t) => if has_key(registry, t@) {
            same_value(v, value_of(registry, t@).default_value)
        } else {
            v == RuntimeValue::Unit
        },
        None => v == RuntimeValue::Unit,
    }
}

/// How a disabled node produces each of its outputs, in output order: all
/// pass the bypass input through when there is one, and fall back to the
/// default value of the output's type.
pub fn disabled_outputs(signature: &ResolvedANodeSignature, value_types: &ValueTypeRegistry) -> (r: Vec<DisabledOutput>)
    ensures
        r.len() == signature.output_entries().len(),
        forall|i: int|
            0 <= i < r.len() ==> (#[trigger] r[i]).input_index == bypass_spec(
                signature.input_entries(),
                signature.output_entries(),
            ) && disabled_default_ok(signature.output_entries()[i].1.value_type, value_types.entries(), r[i].default_value),
{
    let bypass = disabled_bypass_input(signature);
    let n = resolved_socket_map_len(&signature.outputs);
    let mut outputs: Vec<DisabledOutput> = Vec::new();
    let mut i: usize = 0;
    while i < n
        invariant
            i <= n,
            n == signature.output_entries().len(),
            outputs.len() == i,
            bypass == bypass_spec(signature.input_entries(), signature.output_entries()),
            forall|j: int|
                0 <= j < i ==> (#[trigger] outputs[j]).input_index == bypass && disabled_default_ok(
                    signature.output_entries()[j].1.value_type,
                    value_types.entries(),
                    outputs[j].default_value,
                ),
        decreases n - i,
    {
        let (_, output) = resolved_socket_map_get_index(&signature.outputs, i).unwrap();
        let default_value = match &output.value_type {
            Some(t) => match value_types.default_value(t) {
                Some(v) => v,
                None => RuntimeValue::Unit,
            },
            None => RuntimeValue::Unit,
        };
        outputs.push(DisabledOutput { input_index: bypass, default_value });
        i = i + 1;
    }
    outputs
}


/// The declaration and the node of each exposed item: parameters, inputs,
/// outputs, then actions, each in order.
pub open spec fn exposed_targets(e: ExposedSurface) -> Seq<(Seq<char>, u64)> {
    e.params@.map_values(|p: ExposedParam| (p.decl_id@, p.target.node)) + e.inputs@.map_values(
        |p: ExposedInput| (p.decl_id@, p.target.node),
    ) + e.outputs@.map_values(|p: ExposedOutput| (p.decl_id@, p.source.node)) + e.actions@.map_values(
        |p: ExposedAction| (p.decl_id@, p.target.node),
    )
}

/// The declarations, in order, whose node is not among `nodes`.
pub open spec fn missing_targets(t: Seq<(Seq<char>, u64)>, nodes: Seq<(u64, ANodeInstance)>) -> Seq<Seq<char>>
    decreases t.len(),
{
    if t.len() == 0 {
        Seq::empty()
    } else {
        let rest = missing_targets(t.drop_last(), nodes);
        if has_key(nodes, t.last().1) {
            rest
        } else {
            rest.push(t.last().0)
        }
    }
}

/// The error that exposed declaration `decl` targets a missing node.
pub open spec fn missing_target_error(d: Diagnostic, decl: Seq<char>) -> bool {
    &&& d.code@ == "missing_exposed_target"@
    &&& d.message@ == "exposed declaration `"@ + decl + "` targets a missing node"@
    &&& d.severity == DiagnosticSeverity::Error
    &&& d.origin == DiagnosticOrigin::Graph
}

/// Whether `diags`, past its first `start` entries, holds exactly one error
/// for each declaration of `missing`, in order.
pub open spec fn reports_missing(diags: Seq<Diagnostic>, start: nat, missing: Seq<Seq<char>>) -> bool {
    &&& diags.len() == start + missing.len()
    &&& forall|k: int| 0 <= k < missing.len() ==> missing_target_error(#[trigger] diags[start + k], missing[k])
}

fn note_missing_target(decl: &ExposedDeclId, node: ANodeId, graph: &AlchemistGraph, diagnostics: &mut Vec<Diagnostic>)
    ensures
        graph.has_node(node) ==> final(diagnostics)@ == old(diagnostics)@,
        !graph.has_node(node) ==> final(diagnostics)@.len() == old(diagnostics)@.len() + 1,
        !graph.has_node(node) ==> final(diagnostics)@.drop_last() == old(diagnostics)@,
        !graph.has_node(node) ==> missing_target_error(final(diagnostics)@.last(), decl@),
{
    if !node_map_contains(&graph.nodes, &node) {
        diagnostics.push(
            Diagnostic::error(
                "missing_exposed_target",
                concat3("exposed declaration `", decl.as_str(), "` targets a missing node"),
                DiagnosticOrigin::Graph,
            ),
        );
        proof {
            assert(diagnostics@.drop_last() =~= old(diagnostics)@);
        }
    }
}

proof fn lemma_missing_step(
    base: Seq<(Seq<char>, u64)>,
    x: (Seq<char>, u64),
    nodes: Seq<(u64, ANodeInstance)>,
    before: Seq<Diagnostic>,
    after: Seq<Diagnostic>,
    start: nat,
)
    requires
        reports_missing(before, start, missing_targets(base, nodes)),
        has_key(nodes, x.1) ==> after == before,
        !has_key(nodes, x.1) ==> after.len() == before.len() + 1 && after.drop_last() == before && missing_target_error(
            after.last(),
            x.0,
        ),
    ensures
        reports_missing(after, start, missing_targets(base.push(x), nodes)),
{
    assert(base.push(x).drop_last() =~= base);
    let m = missing_targets(base, nodes);
    if !has_key(nodes, x.1) {
        assert forall|k: int| 0 <= k < m.len() + 1 implies missing_target_error(
            #[trigger] after[start + k],
            m.push(x.0)[k],
        ) by {
            if k < m.len() {
                assert(after[start + k] == after.drop_last()[start + k]);
            }
        }
    }
}

/// Checks that every exposed declaration targets a node of the graph: one
/// error of the graph is appended to `diagnostics` for each that does not,
/// in declaration order.
pub fn validate_exposed_surface(exposed: &ExposedSurface, graph: &AlchemistGraph, diagnostics: &mut Vec<Diagnostic>)
    ensures
        final(diagnostics)@.take(old(diagnostics)@.len() as int) == old(diagnostics)@,
        reports_missing(
            final(diagnostics)@,
            old(diagnostics)@.len(),
            missing_targets(exposed_targets(*exposed), graph.node_seq()),
        ),
{
    let ghost start = diagnostics@;
    let ghost nodes = graph.node_seq();
    let ghost p = exposed.params@.map_values(|p: ExposedParam| (p.decl_id@, p.target.node));
    let ghost q = exposed.inputs@.map_values(|p: ExposedInput| (p.decl_id@, p.target.node));
    let ghost o = exposed.outputs@.map_values(|p: ExposedOutput| (p.decl_id@, p.source.node));
    let ghost a = exposed.actions@.map_values(|p: ExposedAction| (p.decl_id@, p.target.node));
    proof {
        assert(p.take(0) =~= Seq::<(Seq<char>, u64)>::empty());
        assert(diagnostics@.take(start.len() as int) =~= start);
    }
    let mut i: usize = 0;
    while i < exposed.params.len()
        invariant
            i <= exposed.params.len(),
            p == exposed.params@.map_values(|p: ExposedParam| (p.decl_id@, p.target.node)),
            nodes == graph.node_seq(),
            diagnostics@.take(start.len() as int) == start,
            reports_missing(diagnostics@, start.len(), missing_targets(p.take(i as int), nodes)),
        decreases exposed.params.len() - i,
    {
        let ghost before = diagnostics@;
        note_missing_target(&exposed.params[i].decl_id, exposed.params[i].target.node, graph, diagnostics);
        proof {
            assert(p.take(i as int + 1) =~= p.take(i as int).push(p[i as int]));
            lemma_missing_step(p.take(i as int), p[i as int], nodes, before, diagnostics@, start.len());
            assert(diagnostics@.take(start.len() as int) =~= start);
        }
        i = i + 1;
    }
    proof {
        assert(p.take(i as int) =~= p);
        assert(p + q.take(0) =~= p);
    }
    let mut i: usize = 0;
    while i < exposed.inputs.len()
        invariant
            i <= exposed.inputs.len(),
            q == exposed.inputs@.map_values(|p: ExposedInput| (p.decl_id@, p.target.node)),
            nodes == graph.node_seq(),
            diagnostics@.take(start.len() as int) == start,
            reports_missing(diagnostics@, start.len(), missing_targets(p + q.take(i as int), nodes)),
        decreases exposed.inputs.len() - i,
    {
        let ghost before = diagnostics@;
        note_missing_target(&exposed.inputs[i].decl_id, exposed.inputs[i].target.node, graph, diagnostics);
        proof {
            assert(p + q.take(i as int + 1) =~= (p + q.take(i as int)).push(q[i as int]));
            lemma_missing_step(p + q.take(i as int), q[i as int], nodes, before, diagnostics@, start.len());
            assert(diagnostics@.take(start.len() as int) =~= start);
        }
        i = i + 1;
    }
    proof {
        assert(q.take(i as int) =~= q);
        assert(p + q + o.take(0) =~= p + q);
    }
    let mut i: usize = 0;
    while i < exposed.outputs.len()
        invariant
            i <= exposed.outputs.len(),
            o == exposed.outputs@.map_values(|p: ExposedOutput| (p.decl_id@, p.source.node)),
            nodes == graph.node_seq(),
            diagnostics@.take(start.len() as int) == start,
            reports_missing(diagnostics@, start.len(), missing_targets(p + q + o.take(i as int), nodes)),
        decreases exposed.outputs.len() - i,
    {
        let ghost before = diagnostics@;
        note_missing_target(&exposed.outputs[i].decl_id, exposed.outputs[i].source.node, graph, diagnostics);
        proof {
            assert(p + q + o.take(i as int + 1) =~= (p + q + o.take(i as int)).push(o[i as int]));
            lemma_missing_step(p + q + o.take(i as int), o[i as int], nodes, before, diagnostics@, start.len());
            assert(diagnostics@.take(start.len() as int) =~= start);
        }
        i = i + 1;
    }
    proof {
        assert(o.take(i as int) =~= o);
        assert(p + q + o + a.take(0) =~= p + q + o);
    }
    let mut i: usize = 0;
    while i < exposed.actions.len()
        invariant
            i <= exposed.actions.len(),
            a == exposed.actions@.map_values(|p: ExposedAction| (p.decl_id@, p.target.node)),
            nodes == graph.node_seq(),
            diagnostics@.take(start.len() as int) == start,
            reports_missing(diagnostics@, start.len(), missing_targets(p + q + o + a.take(i as int), nodes)),
        decreases exposed.actions.len() - i,
    {
        let ghost before = diagnostics@;
        note_missing_target(&exposed.actions[i].decl_id, exposed.actions[i].target.node, graph, diagnostics);
        proof {
            assert(p + q + o + a.take(i as int + 1) =~= (p + q + o + a.take(i as int)).push(a[i as int]));
            lemma_missing_step(p + q + o + a.take(i as int), a[i as int], nodes, before, diagnostics@, start.len());
            assert(diagnostics@.take(start.len() as int) =~= start);
        }
        i = i + 1;
    }
    proof {
        assert(a.take(i as int) =~= a);
        assert(p + q + o + a =~= exposed_targets(*exposed));
    }
}

} // verus!
