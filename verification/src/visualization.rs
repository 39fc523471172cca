//! Graph extraction: a node's transitive history as a list of distinct
//! nodes and a list of distinct edges, ready to be drawn.

use vstd::prelude::*;
use crate::arena::{OpArena, TraceError};
use crate::node::{Operation, OperationView};
use crate::diagram::{dot_text, Diagram, Identifier};
use crate::text::{graph_name, is_identifier, label, label_text, node_name, node_name_text};

verus! {

/// The `k`-th operand of the node listed at position `i`.
pub open spec fn operand<Num>(
    arena: Seq<OperationView<Num>>,
    nodes: Seq<usize>,
    i: int,
    k: int,
) -> usize {
    arena[nodes[i] as int].history[k]
}

/// `v` is listed at a position below `limit`.
pub open spec fn appears(nodes: Seq<usize>, limit: int, v: usize) -> bool {
    exists|p: int| 0 <= p < limit && p < nodes.len() && #[trigger] nodes[p] == v
}

/// Operand `(a, b)` is read before operand `(i, k)` when the listed nodes
/// are walked in order and each node's history from front to back.
pub open spec fn read_before(a: int, b: int, i: int, k: int) -> bool {
    a < i || (a == i && b < k)
}

/// Every operand read before `(i, k)` is listed at a position below `limit`.
pub open spec fn covered<Num>(
    arena: Seq<OperationView<Num>>,
    nodes: Seq<usize>,
    limit: int,
    i: int,
    k: int,
) -> bool {
    forall|a: int, b: int|
        0 <= a < nodes.len() && 0 <= b < arena[nodes[a] as int].history.len() && read_before(
            a,
            b,
            i,
            k,
        ) ==> appears(nodes, limit, #[trigger] operand(arena, nodes, a, b))
}

/// The node at position `j` was first met as operand `(i, k)`: it is that
/// operand, and every operand read earlier was listed before it.
pub open spec fn found_by<Num>(
    arena: Seq<OperationView<Num>>,
    nodes: Seq<usize>,
    j: int,
    i: int,
    k: int,
) -> bool {
    &&& 0 <= i < j
    &&& 0 <= k < arena[nodes[i] as int].history.len()
    &&& operand(arena, nodes, i, k) == nodes[j]
    &&& covered(arena, nodes, j, i, k)
}

/// The node at position `j` was first met as an operand of a node listed
/// before it.
pub open spec fn discovered<Num>(arena: Seq<OperationView<Num>>, nodes: Seq<usize>, j: int) -> bool {
    exists|i: int, k: int| #[trigger] found_by(arena, nodes, j, i, k)
}

/// Every listed node but the first was met as an operand of an earlier one,
/// and the nodes are listed in the order in which they were first met.
pub open spec fn in_discovery_order<Num>(arena: Seq<OperationView<Num>>, nodes: Seq<usize>) -> bool {
    forall|j: int| 1 <= j < nodes.len() ==> #[trigger] discovered(arena, nodes, j)
}

/// There is an edge from position `p` to position `c`: the node at `p` is
/// an operand of the node at `c`.
pub open spec fn is_edge<Num>(
    arena: Seq<OperationView<Num>>,
    nodes: Seq<usize>,
    p: usize,
    c: usize,
) -> bool {
    &&& p < nodes.len()
    &&& c < nodes.len()
    &&& arena[nodes[c as int] as int].history.contains(nodes[p as int])
}

/// Edges are ordered by their first position, then by their second.
pub open spec fn edge_lt(a: (usize, usize), b: (usize, usize)) -> bool {
    a.0 < b.0 || (a.0 == b.0 && a.1 < b.1)
}

pub open spec fn edge_le(a: (usize, usize), b: (usize, usize)) -> bool {
    edge_lt(a, b) || a == b
}

pub open spec fn ascending(edges: Seq<(usize, usize)>) -> bool {
    forall|i: int, j: int| 0 <= i < j < edges.len() ==> edge_le(edges[i], edges[j])
}

/// In ascending order and, therefore, without a repeated edge.
pub open spec fn strictly_ascending(edges: Seq<(usize, usize)>) -> bool {
    forall|i: int, j: int| 0 <= i < j < edges.len() ==> edge_lt(edges[i], edges[j])
}

/// What is left of a list when, of each run of equal neighbours, only the
/// first is kept.
pub open spec fn without_repeats(edges: Seq<(usize, usize)>) -> Seq<(usize, usize)>
    decreases edges.len(),
{
    if edges.len() <= 1 {
        edges
    } else if edges[edges.len() - 2] == edges.last() {
        without_repeats(edges.drop_last())
    } else {
        without_repeats(edges.drop_last()).push(edges.last())
    }
}

/// `nodes` and `edges` are the graph of everything that `root` was computed
/// from: the nodes reachable from `root` along history, each listed once,
/// in the order in which a walk from `root` first meets them, and the
/// operand-to-consumer edges between them, each listed once, in ascending
/// order.
pub open spec fn is_extraction<Num>(
    arena: Seq<OperationView<Num>>,
    root: usize,
    nodes: Seq<usize>,
    edges: Seq<(usize, usize)>,
) -> bool {
    &&& nodes.len() > 0
    &&& nodes[0] == root
    &&& forall|i: int| 0 <= i < nodes.len() ==> #[trigger] nodes[i] < arena.len()
    &&& nodes.no_duplicates()
    &&& in_discovery_order(arena, nodes)
    &&& covered(arena, nodes, nodes.len() as int, nodes.len() as int, 0)
    &&& strictly_ascending(edges)
    &&& forall|p: usize, c: usize| #[trigger] edges.contains((p, c)) <==> is_edge(arena, nodes, p, c)
}

/// Distinct numbers below `n` are at most `n` in number.
proof fn lemma_distinct_bounded(s: Seq<usize>, n: nat)
    requires
        s.no_duplicates(),
        forall|i: int| 0 <= i < s.len() ==> #[trigger] s[i] < n,
    ensures
        s.len() <= n,
    decreases n,
{
    if s.len() == 0 {
    } else if n == 0 {
        assert(s[0] < n);
    } else if exists|k: int| 0 <= k < s.len() && #[trigger] s[k] == n - 1 {
        let k = choose|k: int| 0 <= k < s.len() && #[trigger] s[k] == n - 1;
        let t = s.remove(k);
        assert forall|i: int| 0 <= i < t.len() implies #[trigger] t[i] < (n - 1) as nat by {
            if i < k {
                assert(t[i] == s[i]);
            } else {
                assert(t[i] == s[i + 1]);
            }
        }
        assert(t.no_duplicates()) by {
            assert forall|i: int, j: int| 0 <= i < t.len() && 0 <= j < t.len() && i != j implies t[i]
                != t[j] by {
                let a = if i < k { i } else { i + 1 };
                let b = if j < k { j } else { j + 1 };
                assert(t[i] == s[a] && t[j] == s[b]);
            }
        }
        lemma_distinct_bounded(t, (n - 1) as nat);
    } else {
        assert forall|i: int| 0 <= i < s.len() implies #[trigger] s[i] < (n - 1) as nat by {
            assert(s[i] < n);
        }
        lemma_distinct_bounded(s, (n - 1) as nat);
    }
}

/// Dropping repeated neighbours from an ascending list leaves the same
/// edges, each once.
proof fn lemma_without_repeats(s: Seq<(usize, usize)>)
    requires
        ascending(s),
    ensures
        strictly_ascending(without_repeats(s)),
        forall|e: (usize, usize)| without_repeats(s).contains(e) <==> s.contains(e),
        s.len() > 0 ==> without_repeats(s).len() > 0 && without_repeats(s).last() == s.last(),
    decreases s.len(),
{
    if s.len() <= 1 {
    } else {
        let front = s.drop_last();
        let kept = without_repeats(front);
        lemma_without_repeats(front);
        assert(front.last() == s[s.len() - 2]);
        assert forall|e: (usize, usize)| s.contains(e) <==> (front.contains(e) || e == s.last()) by {
            if s.contains(e) {
                let i = choose|i: int| 0 <= i < s.len() && s[i] == e;
                if i < s.len() - 1 {
                    assert(front[i] == e);
                }
            }
            if front.contains(e) {
                let i = choose|i: int| 0 <= i < front.len() && front[i] == e;
                assert(s[i] == e);
            }
            if e == s.last() {
                assert(s[s.len() - 1] == e);
            }
        }
        if s[s.len() - 2] == s.last() {
            assert(front[front.len() - 1] == s.last());
        } else {
            let d = kept.push(s.last());
            assert(edge_le(s[s.len() - 2], s[s.len() - 1]));
            assert(edge_lt(kept.last(), s.last()));
            assert forall|i: int, j: int| 0 <= i < j < d.len() implies edge_lt(d[i], d[j]) by {
                if j < kept.len() {
                } else {
                    if i < kept.len() - 1 {
                        assert(edge_lt(kept[i], kept[kept.len() - 1]));
                    }
                }
            }
            assert forall|e: (usize, usize)| d.contains(e) <==> (kept.contains(e) || e
                == s.last()) by {
                if d.contains(e) {
                    let i = choose|i: int| 0 <= i < d.len() && d[i] == e;
                    if i < kept.len() {
                        assert(kept[i] == e);
                    }
                }
                if kept.contains(e) {
                    let i = choose|i: int| 0 <= i < kept.len() && kept[i] == e;
                    assert(d[i] == e);
                }
                if e == s.last() {
                    assert(d[d.len() - 1] == e);
                }
            }
        }
    }
}

/// An edge to position `a` from wherever `v` is listed has been recorded.
pub open spec fn linked(nodes: Seq<usize>, edges: Seq<(usize, usize)>, a: int, v: usize) -> bool {
    exists|p: usize| p < nodes.len() && nodes[p as int] == v && #[trigger] edges.contains((p, a as usize))
}

/// Every operand read before `(i, k)` has its edge recorded.
pub open spec fn wired<Num>(
    arena: Seq<OperationView<Num>>,
    nodes: Seq<usize>,
    edges: Seq<(usize, usize)>,
    i: int,
    k: int,
) -> bool {
    forall|a: int, b: int|
        0 <= a < nodes.len() && 0 <= b < arena[nodes[a] as int].history.len() && read_before(
            a,
            b,
            i,
            k,
        ) ==> linked(nodes, edges, a, #[trigger] operand(arena, nodes, a, b))
}

/// Every recorded edge is an edge of the graph.
pub open spec fn sound<Num>(
    arena: Seq<OperationView<Num>>,
    nodes: Seq<usize>,
    edges: Seq<(usize, usize)>,
) -> bool {
    forall|t: int| 0 <= t < edges.len() ==> is_edge(arena, nodes, (#[trigger] edges[t]).0, edges[t].1)
}

/// What the walk knows when it is about to read operand `(i, k)`.
pub open spec fn walked<Num>(
    arena: Seq<OperationView<Num>>,
    root: usize,
    nodes: Seq<usize>,
    edges: Seq<(usize, usize)>,
    i: int,
    k: int,
) -> bool {
    &&& nodes.len() > 0
    &&& nodes[0] == root
    &&& forall|q: int| 0 <= q < nodes.len() ==> #[trigger] nodes[q] < arena.len()
    &&& nodes.no_duplicates()
    &&& in_discovery_order(arena, nodes)
    &&& covered(arena, nodes, nodes.len() as int, i, k)
    &&& wired(arena, nodes, edges, i, k)
    &&& sound(arena, nodes, edges)
}

/// Listing a node that was just met for the first time, as operand `(i, k)`.
proof fn lemma_list<Num>(
    arena: Seq<OperationView<Num>>,
    root: usize,
    nodes: Seq<usize>,
    edges: Seq<(usize, usize)>,
    i: int,
    k: int,
)
    requires
        walked(arena, root, nodes, edges, i, k),
        0 <= i < nodes.len(),
        0 <= k < arena[nodes[i] as int].history.len(),
        operand(arena, nodes, i, k) < arena.len(),
        !nodes.contains(operand(arena, nodes, i, k)),
    ensures
        walked(arena, root, nodes.push(operand(arena, nodes, i, k)), edges, i, k),
{
    let v = operand(arena, nodes, i, k);
    let more = nodes.push(v);
    let n = nodes.len() as int;
    assert forall|q: int| 0 <= q < n implies more[q] == nodes[q] by {}
    assert forall|a: int, b: int| 0 <= a < n implies operand(arena, more, a, b) == operand(
        arena,
        nodes,
        a,
        b,
    ) by {}
    assert forall|limit: int, x: usize| appears(nodes, limit, x) implies appears(
        more,
        limit,
        x,
    ) by {
        let p = choose|p: int| 0 <= p < limit && p < nodes.len() && nodes[p] == x;
        assert(more[p] == x);
    }
    assert(more.no_duplicates()) by {
        assert forall|a: int, b: int| 0 <= a < more.len() && 0 <= b < more.len() && a != b implies more[a]
            != more[b] by {
            if a == n {
                assert(nodes[b] == more[b]);
                assert(nodes.contains(nodes[b]));
            } else if b == n {
                assert(nodes[a] == more[a]);
                assert(nodes.contains(nodes[a]));
            }
        }
    }
    assert forall|limit: int, a: int, b: int|
        a < n && covered(arena, nodes, limit, a, b) implies covered(arena, more, limit, a, b) by {
        assert forall|c: int, d: int|
            0 <= c < more.len() && 0 <= d < arena[more[c] as int].history.len() && read_before(
                c,
                d,
                a,
                b,
            ) implies appears(more, limit, #[trigger] operand(arena, more, c, d)) by {
            assert(c < n);
            assert(operand(arena, more, c, d) == operand(arena, nodes, c, d));
            assert(appears(nodes, limit, operand(arena, nodes, c, d)));
        }
    }
    assert(in_discovery_order(arena, more)) by {
        assert forall|j: int| 1 <= j < more.len() implies #[trigger] discovered(arena, more, j) by {
            if j < n {
                assert(discovered(arena, nodes, j));
                let (a, b) = choose|a: int, b: int| #[trigger] found_by(arena, nodes, j, a, b);
                assert(covered(arena, more, j, a, b));
                assert(found_by(arena, more, j, a, b));
            } else {
                assert(covered(arena, more, n, i, k));
                assert(found_by(arena, more, j, i, k));
            }
        }
    }
    assert(covered(arena, more, more.len() as int, i, k)) by {
        assert(covered(arena, more, n, i, k));
        assert forall|c: int, d: int|
            0 <= c < more.len() && 0 <= d < arena[more[c] as int].history.len() && read_before(
                c,
                d,
                i,
                k,
            ) implies appears(more, more.len() as int, #[trigger] operand(arena, more, c, d)) by {
            assert(appears(more, n, operand(arena, more, c, d)));
            let p = choose|p: int| 0 <= p < n && p < more.len() && more[p] == operand(arena, more, c, d);
            assert(more[p] == operand(arena, more, c, d));
        }
    }
    assert(wired(arena, more, edges, i, k)) by {
        assert forall|c: int, d: int|
            0 <= c < more.len() && 0 <= d < arena[more[c] as int].history.len() && read_before(
                c,
                d,
                i,
                k,
            ) implies linked(more, edges, c, #[trigger] operand(arena, more, c, d)) by {
            assert(c < n);
            assert(linked(nodes, edges, c, operand(arena, nodes, c, d)));
            let p = choose|p: usize|
                p < nodes.len() && nodes[p as int] == operand(arena, nodes, c, d) && edges.contains(
                    (p, c as usize),
                );
            assert(more[p as int] == operand(arena, more, c, d));
        }
    }
    assert(sound(arena, more, edges)) by {
        assert forall|t: int| 0 <= t < edges.len() implies is_edge(
            arena,
            more,
            (#[trigger] edges[t]).0,
            edges[t].1,
        ) by {
            assert(is_edge(arena, nodes, edges[t].0, edges[t].1));
            assert(more[edges[t].0 as int] == nodes[edges[t].0 as int]);
            assert(more[edges[t].1 as int] == nodes[edges[t].1 as int]);
        }
    }
}

/// Recording the edge for operand `(i, k)`, which is listed at `p`.
proof fn lemma_link<Num>(
    arena: Seq<OperationView<Num>>,
    root: usize,
    nodes: Seq<usize>,
    edges: Seq<(usize, usize)>,
    i: usize,
    k: int,
    p: usize,
)
    requires
        walked(arena, root, nodes, edges, i as int, k),
        i < nodes.len(),
        0 <= k < arena[nodes[i as int] as int].history.len(),
        p < nodes.len(),
        nodes[p as int] == operand(arena, nodes, i as int, k),
    ensures
        walked(arena, root, nodes, edges.push((p, i)), i as int, k + 1),
{
    let more = edges.push((p, i));
    assert(more[edges.len() as int] == (p, i));
    assert forall|e: (usize, usize)| edges.contains(e) implies more.contains(e) by {
        let t = choose|t: int| 0 <= t < edges.len() && edges[t] == e;
        assert(more[t] == e);
    }
    assert(more.contains((p, i)));
    assert(covered(arena, nodes, nodes.len() as int, i as int, k + 1)) by {
        assert forall|c: int, d: int|
            0 <= c < nodes.len() && 0 <= d < arena[nodes[c] as int].history.len() && read_before(
                c,
                d,
                i as int,
                k + 1,
            ) implies appears(nodes, nodes.len() as int, #[trigger] operand(arena, nodes, c, d)) by {
            if c == i && d == k {
                assert(nodes[p as int] == operand(arena, nodes, c, d));
            } else {
                assert(read_before(c, d, i as int, k));
            }
        }
    }
    assert(wired(arena, nodes, more, i as int, k + 1)) by {
        assert forall|c: int, d: int|
            0 <= c < nodes.len() && 0 <= d < arena[nodes[c] as int].history.len() && read_before(
                c,
                d,
                i as int,
                k + 1,
            ) implies linked(nodes, more, c, #[trigger] operand(arena, nodes, c, d)) by {
            if c == i && d == k {
                assert(more.contains((p, c as usize)));
            } else {
                assert(read_before(c, d, i as int, k));
                assert(linked(nodes, edges, c, operand(arena, nodes, c, d)));
                let q = choose|q: usize|
                    q < nodes.len() && nodes[q as int] == operand(arena, nodes, c, d)
                        && edges.contains((q, c as usize));
                assert(more.contains((q, c as usize)));
            }
        }
    }
    assert(sound(arena, nodes, more)) by {
        assert forall|t: int| 0 <= t < more.len() implies is_edge(
            arena,
            nodes,
            (#[trigger] more[t]).0,
            more[t].1,
        ) by {
            if t < edges.len() {
                assert(more[t] == edges[t]);
            } else {
                assert(arena[nodes[i as int] as int].history[k] == nodes[p as int]);
            }
        }
    }
}

/// Once every listed node has been read, what was collected is the graph,
/// up to the order and the repetition of its edges.
proof fn lemma_walk_done<Num>(
    arena: Seq<OperationView<Num>>,
    root: usize,
    nodes: Seq<usize>,
    edges: Seq<(usize, usize)>,
)
    requires
        walked(arena, root, nodes, edges, nodes.len() as int, 0),
    ensures
        forall|p: usize, c: usize| #[trigger] edges.contains((p, c)) <==> is_edge(arena, nodes, p, c),
{
    assert forall|p: usize, c: usize| #[trigger] edges.contains((p, c)) <==> is_edge(
        arena,
        nodes,
        p,
        c,
    ) by {
        if edges.contains((p, c)) {
            let t = choose|t: int| 0 <= t < edges.len() && edges[t] == (p, c);
            assert(is_edge(arena, nodes, edges[t].0, edges[t].1));
        }
        if is_edge(arena, nodes, p, c) {
            let h = arena[nodes[c as int] as int].history;
            let d = choose|d: int| 0 <= d < h.len() && h[d] == nodes[p as int];
            assert(read_before(c as int, d, nodes.len() as int, 0));
            assert(linked(nodes, edges, c as int, operand(arena, nodes, c as int, d)));
            let q = choose|q: usize|
                q < nodes.len() && nodes[q as int] == operand(arena, nodes, c as int, d)
                    && edges.contains((q, c as int as usize));
            assert(q == p);
        }
    }
}

/// Sorts with `slice::sort`: afterwards the list holds the edges it held
/// before, each as often as before, in ascending order of the pairs.
#[verifier::external_body]
fn sort_edges(edges: &mut Vec<(usize, usize)>)
    ensures
        final(edges)@.to_multiset() == old(edges)@.to_multiset(),
        ascending(final(edges)@),
{
    edges.sort();
}

/// Prunes with `Vec::dedup`: of each run of equal neighbours only the first
/// stays, and nothing else moves.
#[verifier::external_body]
fn dedup_edges(edges: &mut Vec<(usize, usize)>)
    ensures
        final(edges)@ == without_repeats(old(edges)@),
{
    edges.dedup();
}

/// Where `target` is listed, if it is.
fn position_of(nodes: &Vec<usize>, target: usize) -> (found: Option<usize>)
    ensures
        match found {
            Some(p) => p < nodes@.len() && nodes@[p as int] == target,
            None => !nodes@.contains(target),
        },
{
    let mut p: usize = 0;
    while p < nodes.len()
        invariant
            p <= nodes@.len(),
            forall|q: int| 0 <= q < p ==> nodes@[q] != target,
        decreases nodes@.len() - p,
    {
        if nodes[p] == target {
            return Some(p);
        }
        p += 1;
    }
    None
}

/// `text` is a label of `node`: the node's value in some way in which the
/// value displays itself, the token of its operator and, where it has a
/// reason, a space and the reason in double quotes.
pub open spec fn is_label_of<Num: std::fmt::Display>(node: OperationView<Num>, text: Seq<char>) -> bool {
    exists|shown: String| #[trigger]
        vstd::string::to_string_from_display_ensures::<Num>(&node.value, shown) && text
            == label_text(shown@, node.symbol, node.reason)
}

/// `labels` holds a label for each listed node, in order.
pub open spec fn are_labels_of<Num: std::fmt::Display>(
    arena: Seq<OperationView<Num>>,
    nodes: Seq<usize>,
    labels: Seq<Seq<char>>,
) -> bool {
    &&& labels.len() == nodes.len()
    &&& forall|i: int|
        0 <= i < nodes.len() ==> is_label_of(arena[nodes[i] as int], #[trigger] labels[i])
}

/// The name and the label of each listed node, in order.
pub open spec fn records_of(nodes: Seq<usize>, labels: Seq<Seq<char>>) -> Seq<
    (Seq<char>, Seq<char>),
> {
    Seq::new(nodes.len(), |i: int| (node_name(nodes[i] as nat), labels[i]))
}

/// `text` is what the renderer writes for the graph with these nodes and
/// edges, each node under its name and with a label of its own.
pub open spec fn is_drawing_of<Num: std::fmt::Display>(
    arena: Seq<OperationView<Num>>,
    nodes: Seq<usize>,
    edges: Seq<(usize, usize)>,
    text: Seq<char>,
) -> bool {
    exists|labels: Seq<Seq<char>>| #[trigger]
        are_labels_of(arena, nodes, labels) && text == dot_text(
            graph_name(),
            records_of(nodes, labels),
            edges,
        )
}

fn copied_edges(edges: &Vec<(usize, usize)>) -> (copy: Vec<(usize, usize)>)
    ensures
        copy@ == edges@,
{
    let mut copy: Vec<(usize, usize)> = Vec::new();
    let mut i: usize = 0;
    while i < edges.len()
        invariant
            i <= edges@.len(),
            copy@ == edges@.take(i as int),
        decreases edges@.len() - i,
    {
        copy.push(edges[i]);
        i += 1;
        assert(copy@ =~= edges@.take(i as int));
    }
    assert(edges@.take(edges@.len() as int) =~= edges@);
    copy
}

/// A node's transitive history, flattened for drawing. Nodes are named by
/// their index in the arena that the graph was taken from, edges by the
/// positions of their two ends in the node list, operand first.
pub struct OperationGraph<'a, Num> {
    arena: &'a OpArena<Num>,
    nodes: Vec<usize>,
    edges: Vec<(usize, usize)>,
}

impl<'a, Num> OperationGraph<'a, Num> {
    #[verifier::type_invariant]
    spec fn lists_nodes_of_its_arena(&self) -> bool {
        forall|i: int| 0 <= i < self.nodes@.len() ==> #[trigger] self.nodes@[i] < self.arena@.len()
    }

    /// The nodes of the arena that the graph was taken from.
    pub closed spec fn arena_view(&self) -> Seq<OperationView<Num>> {
        self.arena@
    }

    /// The arena indices of the nodes, in the order in which they were met.
    pub closed spec fn node_list(&self) -> Seq<usize> {
        self.nodes@
    }

    /// The edges, as pairs of positions in the node list.
    pub closed spec fn edge_list(&self) -> Seq<(usize, usize)> {
        self.edges@
    }

    /// Walks the history of `root` and collects every node it was computed
    /// from, each once, with the edges between them, each once. A root that
    /// names no node of the arena is refused.
    pub fn from_op(arena: &'a OpArena<Num>, root: usize) -> (result: Result<
        OperationGraph<'a, Num>,
        TraceError,
    >)
        requires
            arena.wf(),
        ensures
            root >= arena@.len() <==> result is Err,
            result is Err ==> result == Err::<OperationGraph<'a, Num>, TraceError>(
                TraceError::UnknownNode,
            ),
            result is Ok ==> result.unwrap().arena_view() == arena@,
            result is Ok ==> is_extraction(
                arena@,
                root,
                result.unwrap().node_list(),
                result.unwrap().edge_list(),
            ),
    {
        if root >= arena.len() {
            return Err(TraceError::UnknownNode);
        }
        let mut nodes: Vec<usize> = Vec::new();
        nodes.push(root);
        let mut edges: Vec<(usize, usize)> = Vec::new();
        let mut current: usize = 0;
        proof {
            assert(nodes@ =~= seq![root]);
        }
        while current < nodes.len()
            invariant
                arena.wf(),
                current <= nodes@.len(),
                walked(arena@, root, nodes@, edges@, current as int, 0),
            decreases arena@.len() - current,
        {
            proof {
                lemma_distinct_bounded(nodes@, arena@.len());
            }
            let consumer = nodes[current];
            let node = arena.get(consumer).unwrap();
            let ghost operands = arena@[consumer as int].history;
            match node.op.history() {
                None => {},
                Some(history) => {
                    let mut k: usize = 0;
                    while k < history.len()
                        invariant
                            arena.wf(),
                            current < nodes@.len(),
                            nodes@[current as int] == consumer,
                            consumer < arena@.len(),
                            history@ == operands,
                            operands == arena@[consumer as int].history,
                            k <= history@.len(),
                            walked(arena@, root, nodes@, edges@, current as int, k as int),
                        decreases history@.len() - k,
                    {
                        let prior = history[k];
                        assert(prior == operand(arena@, nodes@, current as int, k as int));
                        assert(prior < consumer);
                        let position = match position_of(&nodes, prior) {
                            Some(p) => p,
                            None => {
                                proof {
                                    lemma_list(arena@, root, nodes@, edges@, current as int, k as int);
                                }
                                nodes.push(prior);
                                nodes.len() - 1
                            },
                        };
                        proof {
                            lemma_link(arena@, root, nodes@, edges@, current, k as int, position);
                        }
                        edges.push((position, current));
                        k += 1;
                    }
                },
            }
            assert(covered(arena@, nodes@, nodes@.len() as int, current + 1, 0));
            assert(wired(arena@, nodes@, edges@, current + 1, 0));
            current += 1;
        }
        proof {
            lemma_walk_done(arena@, root, nodes@, edges@);
        }
        let ghost collected = edges@;
        sort_edges(&mut edges);
        let ghost sorted = edges@;
        dedup_edges(&mut edges);
        proof {
            lemma_without_repeats(sorted);
            assert forall|p: usize, c: usize| #[trigger] edges@.contains((p, c)) <==> is_edge(
                arena@,
                nodes@,
                p,
                c,
            ) by {
                vstd::seq_lib::to_multiset_contains(collected, (p, c));
                vstd::seq_lib::to_multiset_contains(sorted, (p, c));
            }
        }
        Ok(OperationGraph { arena, nodes, edges })
    }

    /// The arena indices of the nodes, in the order in which they were met.
    pub fn nodes(&self) -> (nodes: &Vec<usize>)
        ensures
            nodes@ == self.node_list(),
    {
        &self.nodes
    }

    /// The edges, as pairs of positions in the node list, operand first.
    pub fn edges(&self) -> (edges: &Vec<(usize, usize)>)
        ensures
            edges@ == self.edge_list(),
    {
        &self.edges
    }

    /// The arena index of the node that an edge starts from.
    pub fn source(&self, edge: &(usize, usize)) -> (node: usize)
        requires
            edge.0 < self.node_list().len(),
        ensures
            node == self.node_list()[edge.0 as int],
    {
        self.nodes[edge.0]
    }

    /// The arena index of the node that an edge leads to.
    pub fn target(&self, edge: &(usize, usize)) -> (node: usize)
        requires
            edge.1 < self.node_list().len(),
        ensures
            node == self.node_list()[edge.1 as int],
    {
        self.nodes[edge.1]
    }

    /// The name of every drawing.
    pub fn graph_name(&self) -> (name: &'static str)
        ensures
            name@ == graph_name(),
            is_identifier(name@),
    {
        proof {
            reveal_strlit("backtraced");
        }
        let name = "backtraced";
        assert(name@ =~= graph_name());
        name
    }

    /// The name of every drawing, as an identifier.
    pub fn graph_id(&self) -> (id: Identifier)
        ensures
            id@ == graph_name(),
    {
        Identifier::known(self.graph_name().to_owned())
    }

    /// The name under which the node with arena index `n` is drawn: `op`
    /// and the index.
    pub fn node_id(&self, n: usize) -> (id: Identifier)
        ensures
            id@ == node_name(n as nat),
    {
        Identifier::known(node_name_text(n))
    }
}

impl<'a, Num: std::fmt::Display> OperationGraph<'a, Num> {
    /// The label of the node with arena index `n`, where the arena has such
    /// a node.
    pub fn node_label(&self, n: usize) -> (text: Option<String>)
        ensures
            text is Some <==> n < self.arena_view().len(),
            text is Some ==> is_label_of(self.arena_view()[n as int], text.unwrap()@),
    {
        match self.arena.get(n) {
            Some(node) => Some(node.label()),
            None => None,
        }
    }

    /// The graph in plain words: its name, the name and the label of each
    /// node, and the edges.
    pub fn diagram(&self) -> (drawing: Diagram)
        ensures
            drawing.spec_name() == graph_name(),
            drawing.links() == self.edge_list(),
            exists|labels: Seq<Seq<char>>| #[trigger]
                are_labels_of(self.arena_view(), self.node_list(), labels) && drawing.records()
                    == records_of(self.node_list(), labels),
    {
        proof {
            use_type_invariant(self);
        }
        let mut ids: Vec<Identifier> = Vec::new();
        let mut labels: Vec<String> = Vec::new();
        let mut i: usize = 0;
        while i < self.nodes.len()
            invariant
                i <= self.nodes@.len(),
                ids@.len() == i,
                labels@.len() == i,
                forall|q: int| 0 <= q < self.nodes@.len() ==> #[trigger] self.nodes@[q] < self.arena@.len(),
                forall|q: int| 0 <= q < i ==> (#[trigger] ids@[q])@ == node_name(self.nodes@[q] as nat),
                forall|q: int|
                    0 <= q < i ==> is_label_of(
                        self.arena@[self.nodes@[q] as int],
                        (#[trigger] labels@[q])@,
                    ),
            decreases self.nodes@.len() - i,
        {
            let n = self.nodes[i];
            ids.push(self.node_id(n));
            labels.push(self.arena.get(n).unwrap().label());
            i += 1;
        }
        let ghost texts = Seq::new(labels@.len(), |q: int| labels@[q]@);
        let ghost names = ids@;
        let drawing = Diagram::new(self.graph_id(), ids, labels, copied_edges(&self.edges)).unwrap();
        proof {
            assert(are_labels_of(self.arena_view(), self.node_list(), texts));
            assert(drawing.records() =~= records_of(self.node_list(), texts));
        }
        drawing
    }

    /// The graph as a description that a layout tool can draw: a record
    /// for each node, with its name and its label, and one for each edge.
    pub fn to_graphviz(&self) -> (text: String)
        ensures
            is_drawing_of(self.arena_view(), self.node_list(), self.edge_list(), text@),
    {
        self.diagram().to_text()
    }
}

impl<Num: std::fmt::Display> Operation<Num> {
    /// The history of the node `root` of `arena` as a description that a
    /// layout tool can draw. A root that names no node is refused.
    pub fn as_graphviz(arena: &OpArena<Num>, root: usize) -> (result: Result<String, TraceError>)
        requires
            arena.wf(),
        ensures
            root >= arena@.len() <==> result is Err,
            result is Err ==> result == Err::<String, TraceError>(TraceError::UnknownNode),
            result is Ok ==> exists|nodes: Seq<usize>, edges: Seq<(usize, usize)>| #[trigger]
                is_extraction(arena@, root, nodes, edges) && is_drawing_of(
                    arena@,
                    nodes,
                    edges,
                    result.unwrap()@,
                ),
    {
        match OperationGraph::from_op(arena, root) {
            Ok(graph) => Ok(graph.to_graphviz()),
            Err(e) => Err(e),
        }
    }

    /// The label under which this node is drawn: its value as the value
    /// displays itself, the token of its operator and, where it has a
    /// reason, a space and the reason in double quotes.
    pub fn label(&self) -> (s: String)
        ensures
            is_label_of(self@, s@),
    {
        let shown = self.value().to_string();
        let s = label(shown.as_str(), self.op.variant_symbol(), self.reason());
        assert(vstd::string::to_string_from_display_ensures::<Num>(&self@.value, shown));
        s
    }
}

} // verus!
