//! What holds of every extraction: it is determined by the arena and the
//! root, and a node that is used twice is drawn once.

use vstd::prelude::*;
use crate::arena::acyclic;
use crate::diagram::dot_text;
use crate::merge::{case_of, merged_history, merged_reason, Arithmetic, MergeCase};
use crate::node::OperationView;
use crate::text::graph_name;
use crate::visualization::{
    appears, covered, discovered, edge_lt, found_by, is_edge, is_extraction, operand, read_before,
    records_of, strictly_ascending,
};

verus! {

/// Two node lists that both extract `root` agree on their first `j` nodes.
proof fn lemma_same_prefix<Num>(
    arena: Seq<OperationView<Num>>,
    root: usize,
    n1: Seq<usize>,
    e1: Seq<(usize, usize)>,
    n2: Seq<usize>,
    e2: Seq<(usize, usize)>,
    j: int,
)
    requires
        is_extraction(arena, root, n1, e1),
        is_extraction(arena, root, n2, e2),
        0 <= j <= n1.len(),
        j <= n2.len(),
    ensures
        forall|q: int| 0 <= q < j ==> n1[q] == n2[q],
    decreases j,
{
    if j >= 2 {
        lemma_same_prefix(arena, root, n1, e1, n2, e2, j - 1);
        let m = j - 1;
        assert(discovered(arena, n1, m));
        assert(discovered(arena, n2, m));
        let (i1, k1) = choose|i: int, k: int| #[trigger] found_by(arena, n1, m, i, k);
        let (i2, k2) = choose|i: int, k: int| #[trigger] found_by(arena, n2, m, i, k);
        assert(n1[i1] == n2[i1]);
        assert(n1[i2] == n2[i2]);
        if read_before(i1, k1, i2, k2) {
            assert(appears(n2, m, operand(arena, n2, i1, k1)));
            let p = choose|p: int| 0 <= p < m && p < n2.len() && n2[p] == operand(arena, n2, i1, k1);
            assert(n1[p] == n1[m]);
            assert(false);
        } else if read_before(i2, k2, i1, k1) {
            assert(appears(n1, m, operand(arena, n1, i2, k2)));
            let p = choose|p: int| 0 <= p < m && p < n1.len() && n1[p] == operand(arena, n1, i2, k2);
            assert(n2[p] == n2[m]);
            assert(false);
        } else {
            assert(i1 == i2 && k1 == k2);
        }
    }
}

/// A list that extracts `root` is no longer than another that does.
proof fn lemma_not_longer<Num>(
    arena: Seq<OperationView<Num>>,
    root: usize,
    n1: Seq<usize>,
    e1: Seq<(usize, usize)>,
    n2: Seq<usize>,
    e2: Seq<(usize, usize)>,
)
    requires
        is_extraction(arena, root, n1, e1),
        is_extraction(arena, root, n2, e2),
    ensures
        n2.len() <= n1.len(),
{
    if n1.len() < n2.len() {
        let m = n1.len() as int;
        lemma_same_prefix(arena, root, n1, e1, n2, e2, m);
        assert(discovered(arena, n2, m));
        let (i, k) = choose|i: int, k: int| #[trigger] found_by(arena, n2, m, i, k);
        assert(n1[i] == n2[i]);
        assert(read_before(i, k, m, 0));
        assert(appears(n1, m, operand(arena, n1, i, k)));
        let p = choose|p: int| 0 <= p < m && p < n1.len() && n1[p] == operand(arena, n1, i, k);
        assert(n2[p] == n2[m]);
        assert(false);
    }
}

/// Two strictly ascending lists that hold the same edges are the same list.
proof fn lemma_same_edges(e1: Seq<(usize, usize)>, e2: Seq<(usize, usize)>)
    requires
        strictly_ascending(e1),
        strictly_ascending(e2),
        forall|e: (usize, usize)| e1.contains(e) <==> e2.contains(e),
    ensures
        e1 == e2,
    decreases e1.len(),
{
    if e1.len() == 0 {
        if e2.len() > 0 {
            assert(e2.contains(e2[0]));
        }
        assert(e1 =~= e2);
    } else if e2.len() == 0 {
        assert(e1.contains(e1[0]));
    } else {
        let a = e1.last();
        let b = e2.last();
        assert(e1.contains(a)) by {
            assert(e1[e1.len() - 1] == a);
        }
        assert(e2.contains(b)) by {
            assert(e2[e2.len() - 1] == b);
        }
        let ia = choose|i: int| 0 <= i < e2.len() && e2[i] == a;
        let ib = choose|i: int| 0 <= i < e1.len() && e1[i] == b;
        assert(a == b) by {
            if ia < e2.len() - 1 {
                assert(edge_lt(e2[ia], e2[e2.len() - 1]));
            }
            if ib < e1.len() - 1 {
                assert(edge_lt(e1[ib], e1[e1.len() - 1]));
            }
        }
        let f1 = e1.drop_last();
        let f2 = e2.drop_last();
        assert forall|e: (usize, usize)| f1.contains(e) <==> f2.contains(e) by {
            if f1.contains(e) {
                let i = choose|i: int| 0 <= i < f1.len() && f1[i] == e;
                assert(e1[i] == e);
                assert(edge_lt(e1[i], e1[e1.len() - 1]));
                assert(e1.contains(e));
                let t = choose|t: int| 0 <= t < e2.len() && e2[t] == e;
                assert(f2[t] == e);
            }
            if f2.contains(e) {
                let i = choose|i: int| 0 <= i < f2.len() && f2[i] == e;
                assert(e2[i] == e);
                assert(edge_lt(e2[i], e2[e2.len() - 1]));
                assert(e2.contains(e));
                let t = choose|t: int| 0 <= t < e1.len() && e1[t] == e;
                assert(f1[t] == e);
            }
        }
        assert(strictly_ascending(f1)) by {
            assert forall|i: int, j: int| 0 <= i < j < f1.len() implies edge_lt(f1[i], f1[j]) by {
                assert(edge_lt(e1[i], e1[j]));
            }
        }
        assert(strictly_ascending(f2)) by {
            assert forall|i: int, j: int| 0 <= i < j < f2.len() implies edge_lt(f2[i], f2[j]) by {
                assert(edge_lt(e2[i], e2[j]));
            }
        }
        lemma_same_edges(f1, f2);
        assert(e1 =~= f1.push(a));
        assert(e2 =~= f2.push(b));
    }
}

/// Extraction is a function of the arena and the root: whatever two
/// extractions of the same root from the same arena return, they list the
/// same nodes in the same order and the same edges in the same order.
pub proof fn extraction_is_determined<Num>(
    arena: Seq<OperationView<Num>>,
    root: usize,
    n1: Seq<usize>,
    e1: Seq<(usize, usize)>,
    n2: Seq<usize>,
    e2: Seq<(usize, usize)>,
)
    requires
        is_extraction(arena, root, n1, e1),
        is_extraction(arena, root, n2, e2),
    ensures
        n1 == n2,
        e1 == e2,
{
    lemma_not_longer(arena, root, n1, e1, n2, e2);
    lemma_not_longer(arena, root, n2, e2, n1, e1);
    lemma_same_prefix(arena, root, n1, e1, n2, e2, n1.len() as int);
    assert(n1 =~= n2);
    assert forall|e: (usize, usize)| e1.contains(e) <==> e2.contains(e) by {
        assert(e1.contains((e.0, e.1)) <==> is_edge(arena, n1, e.0, e.1));
        assert(e2.contains((e.0, e.1)) <==> is_edge(arena, n2, e.0, e.1));
    }
    lemma_same_edges(e1, e2);
}

/// Drawing the same root of the same arena twice gives the same text, as
/// long as the nodes are given the same labels both times.
pub proof fn drawing_is_determined<Num>(
    arena: Seq<OperationView<Num>>,
    root: usize,
    n1: Seq<usize>,
    e1: Seq<(usize, usize)>,
    n2: Seq<usize>,
    e2: Seq<(usize, usize)>,
    labels: Seq<Seq<char>>,
)
    requires
        is_extraction(arena, root, n1, e1),
        is_extraction(arena, root, n2, e2),
    ensures
        dot_text(graph_name(), records_of(n1, labels), e1) == dot_text(
            graph_name(),
            records_of(n2, labels),
            e2,
        ),
{
    extraction_is_determined(arena, root, n1, e1, n2, e2);
}

/// A node whose two operands are one and the same source is drawn with that
/// source once and with one edge from it.
pub proof fn shared_operand_is_drawn_once<Num>(
    arena: Seq<OperationView<Num>>,
    x: usize,
    s: usize,
    nodes: Seq<usize>,
    edges: Seq<(usize, usize)>,
)
    requires
        acyclic(arena),
        x < arena.len(),
        s < arena.len(),
        arena[x as int].history == seq![s, s],
        arena[s as int].history.len() == 0,
        is_extraction(arena, x, nodes, edges),
    ensures
        nodes == seq![x, s],
        edges == seq![(1usize, 0usize)],
{
    assert(arena[x as int].history[0] == s);
    assert(s != x);
    assert(read_before(0, 0, nodes.len() as int, 0));
    assert(appears(nodes, nodes.len() as int, operand(arena, nodes, 0, 0)));
    assert(nodes.len() >= 2);
    assert(discovered(arena, nodes, 1));
    let (i, k) = choose|i: int, k: int| #[trigger] found_by(arena, nodes, 1, i, k);
    assert(i == 0);
    assert(nodes[1] == s);
    if nodes.len() > 2 {
        assert(discovered(arena, nodes, 2));
        let (i2, k2) = choose|i: int, k: int| #[trigger] found_by(arena, nodes, 2, i, k);
        assert(i2 == 0 || i2 == 1);
        assert(false);
    }
    assert(nodes =~= seq![x, s]);
    let want = seq![(1usize, 0usize)];
    assert(strictly_ascending(want));
    assert forall|e: (usize, usize)| edges.contains(e) <==> want.contains(e) by {
        assert(edges.contains((e.0, e.1)) <==> is_edge(arena, nodes, e.0, e.1));
        if is_edge(arena, nodes, e.0, e.1) {
            let h = arena[nodes[e.1 as int] as int].history;
            let d = choose|d: int| 0 <= d < h.len() && h[d] == nodes[e.0 as int];
            assert(e.1 == 0);
            assert(e.0 == 1);
            assert(want[0] == e);
        }
        if want.contains(e) {
            assert(e == (1usize, 0usize));
            assert(arena[nodes[0] as int].history[0] == nodes[1]);
            assert(is_edge(arena, nodes, 1, 0));
        }
    }
    lemma_same_edges(edges, want);
}

/// What was computed stays as it is: appending a node to an arena changes
/// the graph of no node that was there before.
pub proof fn extraction_outlives_growth<Num>(
    arena: Seq<OperationView<Num>>,
    added: OperationView<Num>,
    root: usize,
    nodes: Seq<usize>,
    edges: Seq<(usize, usize)>,
)
    requires
        is_extraction(arena, root, nodes, edges),
    ensures
        is_extraction(arena.push(added), root, nodes, edges),
{
    let more = arena.push(added);
    assert forall|i: int| 0 <= i < nodes.len() implies more[nodes[i] as int] == arena[nodes[i] as int] by {
        assert(nodes[i] < arena.len());
    }
    assert forall|a: int, b: int| 0 <= a < nodes.len() implies operand(more, nodes, a, b) == operand(
        arena,
        nodes,
        a,
        b,
    ) by {
        assert(more[nodes[a] as int] == arena[nodes[a] as int]);
    }
    assert forall|limit: int, i: int, k: int| covered(arena, nodes, limit, i, k) implies covered(
        more,
        nodes,
        limit,
        i,
        k,
    ) by {
        assert forall|a: int, b: int|
            0 <= a < nodes.len() && 0 <= b < more[nodes[a] as int].history.len() && read_before(
                a,
                b,
                i,
                k,
            ) implies appears(nodes, limit, #[trigger] operand(more, nodes, a, b)) by {
            assert(more[nodes[a] as int] == arena[nodes[a] as int]);
            assert(operand(more, nodes, a, b) == operand(arena, nodes, a, b));
        }
    }
    assert forall|j: int| 1 <= j < nodes.len() implies #[trigger] discovered(more, nodes, j) by {
        assert(discovered(arena, nodes, j));
        let (i, k) = choose|i: int, k: int| #[trigger] found_by(arena, nodes, j, i, k);
        assert(more[nodes[i] as int] == arena[nodes[i] as int]);
        assert(found_by(more, nodes, j, i, k));
    }
    assert forall|p: usize, c: usize| #[trigger] edges.contains((p, c)) <==> is_edge(
        more,
        nodes,
        p,
        c,
    ) by {
        assert(edges.contains((p, c)) <==> is_edge(arena, nodes, p, c));
        if c < nodes.len() {
            assert(more[nodes[c as int] as int] == arena[nodes[c as int] as int]);
        }
    }
}

/// Which row of the decision table applies, and which reason the result
/// inherits, does not depend on which operand stands on the left.
pub proof fn merge_case_is_symmetric<Num>(
    op: Arithmetic,
    lhs: OperationView<Num>,
    rhs: OperationView<Num>,
)
    ensures
        case_of(op, lhs, rhs) == case_of(op, rhs, lhs),
        merged_reason(op, lhs, rhs) == merged_reason(op, rhs, lhs),
{
}

/// No operand is lost: the merged history names both operands themselves
/// or, of an operand that was folded in, everything its history named.
pub proof fn merged_history_keeps_operands<Num>(
    op: Arithmetic,
    lhs: OperationView<Num>,
    rhs: OperationView<Num>,
    l: usize,
    r: usize,
)
    ensures
        merged_history(op, lhs, rhs, l, r).contains(l) || forall|k: int|
            0 <= k < lhs.history.len() ==> merged_history(op, lhs, rhs, l, r).contains(
                #[trigger] lhs.history[k],
            ),
        merged_history(op, lhs, rhs, l, r).contains(r) || forall|k: int|
            0 <= k < rhs.history.len() ==> merged_history(op, lhs, rhs, l, r).contains(
                #[trigger] rhs.history[k],
            ),
{
    let h = merged_history(op, lhs, rhs, l, r);
    match case_of(op, lhs, rhs) {
        MergeCase::Absorb => {
            if lhs.kind == crate::node::OpKind::Source {
                assert(h[rhs.history.len() as int] == l);
                assert forall|k: int| 0 <= k < rhs.history.len() implies h.contains(
                    #[trigger] rhs.history[k],
                ) by {
                    assert(h[k] == rhs.history[k]);
                }
            } else {
                assert(h[lhs.history.len() as int] == r);
                assert forall|k: int| 0 <= k < lhs.history.len() implies h.contains(
                    #[trigger] lhs.history[k],
                ) by {
                    assert(h[k] == lhs.history[k]);
                }
            }
        },
        MergeCase::Flatten => {
            assert forall|k: int| 0 <= k < lhs.history.len() implies h.contains(
                #[trigger] lhs.history[k],
            ) by {
                assert(h[k] == lhs.history[k]);
            }
            assert forall|k: int| 0 <= k < rhs.history.len() implies h.contains(
                #[trigger] rhs.history[k],
            ) by {
                assert(h[lhs.history.len() + k] == rhs.history[k]);
            }
        },
        _ => {
            assert(h[0] == l);
            assert(h[1] == r);
        },
    }
}

} // verus!
