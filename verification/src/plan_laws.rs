use vstd::prelude::*;
use crate::plan::{replaced, NodeView};
use crate::plan_rewriter::{
    after_pass, concerns, contracted, first_keyed, first_upstream, io_key, is_self_join,
    lemma_first_keyed, listed, merged, pass_step, rewritten, self_join_elided, with_edge,
    with_edges, Graph, Pass,
};
use crate::schema::OperatorView;

verus! {

/// Every node of the graph is a node of the plan and has the operator it had there.
pub open spec fn keeps_operators(g: Graph, nodes: Seq<NodeView>) -> bool {
    forall|x: usize| #[trigger]
        g.contains_key(x) ==> x < nodes.len() && g[x].operator == nodes[x as int].operator
}

/// No node of the graph before `n` is one that the pass takes out.
pub open spec fn none_left(
    pass: Pass,
    g: Graph,
    nodes: Seq<NodeView>,
    to_one_target: bool,
    n: int,
) -> bool {
    forall|x: usize| #[trigger]
        g.contains_key(x) && x < n ==> !concerns(pass, nodes[x as int].operator, to_one_target)
}

/// Loading edges changes no operator.
pub proof fn lemma_edges_keep_operators(nodes: Seq<NodeView>, edges: Seq<(usize, usize)>)
    ensures
        keeps_operators(with_edges(listed(nodes), edges), nodes),
        with_edges(listed(nodes), edges).dom() == listed(nodes).dom(),
    decreases edges.len(),
{
    if edges.len() > 0 {
        lemma_edges_keep_operators(nodes, edges.drop_last());
        let g = with_edges(listed(nodes), edges.drop_last());
        let f = edges.last().0;
        let t = edges.last().1;
        assert(with_edge(g, f, t).dom() =~= g.dom());
    }
}

/// A step of a pass changes no operator and adds no node; a step of the pass over the
/// fragmenters or over the projections takes its node out.
pub proof fn lemma_step_keeps_operators(
    pass: Pass,
    nodes: Seq<NodeView>,
    to_one_target: bool,
    g: Graph,
    i: int,
)
    requires
        keeps_operators(g, nodes),
        0 <= i < nodes.len(),
        i <= usize::MAX,
    ensures
        keeps_operators(pass_step(pass, nodes, to_one_target, g, i), nodes),
        pass_step(pass, nodes, to_one_target, g, i).dom().subset_of(g.dom()),
        (pass is Fragmenters || pass is Projections) && concerns(
            pass,
            nodes[i].operator,
            to_one_target,
        ) ==> !pass_step(pass, nodes, to_one_target, g, i).contains_key(i as usize),
{
    let h = pass_step(pass, nodes, to_one_target, g, i);
    assert forall|x: usize| #[trigger] h.contains_key(x) implies g.contains_key(x) && h[x].operator
        == g[x].operator by {}
}

/// A pass changes no operator and adds no node; the pass over the fragmenters or over the
/// projections leaves none of them among the nodes it has gone over.
pub proof fn lemma_pass_keeps_operators(
    pass: Pass,
    nodes: Seq<NodeView>,
    to_one_target: bool,
    g: Graph,
    n: int,
)
    requires
        keeps_operators(g, nodes),
        0 <= n <= nodes.len(),
        n <= usize::MAX,
    ensures
        keeps_operators(after_pass(pass, nodes, to_one_target, g, n), nodes),
        after_pass(pass, nodes, to_one_target, g, n).dom().subset_of(g.dom()),
        (pass is Fragmenters || pass is Projections) ==> none_left(
            pass,
            after_pass(pass, nodes, to_one_target, g, n),
            nodes,
            to_one_target,
            n,
        ),
    decreases n,
{
    if n > 0 {
        lemma_pass_keeps_operators(pass, nodes, to_one_target, g, n - 1);
        let before = after_pass(pass, nodes, to_one_target, g, n - 1);
        lemma_step_keeps_operators(pass, nodes, to_one_target, before, n - 1);
    }
}

/// Whether a graph holds neither a fragmenter nor a projection.
pub open spec fn no_fragmenter_or_projection(g: Graph) -> bool {
    forall|x: usize| #[trigger]
        g.contains_key(x) ==> !(g[x].operator is FragmentOp) && !(g[x].operator is ProjectOp)
}

/// A rewritten plan holds neither a fragmenter nor a projection.
pub proof fn rewritten_has_no_fragmenter_or_projection(
    nodes: Seq<NodeView>,
    edges: Seq<(usize, usize)>,
    to_one_target: bool,
)
    requires
        nodes.len() <= usize::MAX,
    ensures
        no_fragmenter_or_projection(rewritten(nodes, edges, to_one_target)),
        keeps_operators(rewritten(nodes, edges, to_one_target), nodes),
{
    let n = nodes.len() as int;
    let g0 = with_edges(listed(nodes), edges);
    let g1 = after_pass(Pass::MergeEndpoints, nodes, to_one_target, g0, n);
    let g2 = after_pass(Pass::Fragmenters, nodes, to_one_target, g1, n);
    let g3 = after_pass(Pass::Projections, nodes, to_one_target, g2, n);
    let g4 = after_pass(Pass::SelfJoins, nodes, to_one_target, g3, n);
    lemma_edges_keep_operators(nodes, edges);
    lemma_pass_keeps_operators(Pass::MergeEndpoints, nodes, to_one_target, g0, n);
    lemma_pass_keeps_operators(Pass::Fragmenters, nodes, to_one_target, g1, n);
    lemma_pass_keeps_operators(Pass::Projections, nodes, to_one_target, g2, n);
    lemma_pass_keeps_operators(Pass::SelfJoins, nodes, to_one_target, g3, n);
    assert forall|x: usize| #[trigger] g4.contains_key(x) implies !(g4[x].operator is FragmentOp)
        && !(g4[x].operator is ProjectOp) by {
        assert(g3.contains_key(x));
        assert(g2.contains_key(x));
    }
}

/// Edge symmetry: `y` is downstream of `x` exactly if `x` is upstream of `y`, and both are
/// nodes of the graph.
pub open spec fn consistent(g: Graph) -> bool {
    &&& forall|x: usize, y: usize|
        g.contains_key(x) && #[trigger] g[x].to.contains(y) ==> g.contains_key(y)
            && g[y].from.contains(x)
    &&& forall|x: usize, y: usize|
        g.contains_key(y) && #[trigger] g[y].from.contains(x) ==> g.contains_key(x)
            && g[x].to.contains(y)
}

/// Every edge leads to a node of higher rank, so no path comes back to where it began.
pub open spec fn ranked(g: Graph, rank: spec_fn(usize) -> int) -> bool {
    forall|x: usize, y: usize|
        g.contains_key(x) && #[trigger] g[x].to.contains(y) ==> rank(x) < rank(y)
}

/// Whether a node has as many inputs and outputs as its operator allows: a source no
/// input, a target no output, a fragmenter or a projection one input, a join two.
pub open spec fn shaped_node(n: NodeView) -> bool {
    match n.operator {
        OperatorView::SourceOp { .. } => n.from.len() == 0,
        OperatorView::TargetOp { .. } => n.to == Set::<usize>::empty(),
        OperatorView::FragmentOp => n.from.len() == 1,
        OperatorView::ProjectOp { .. } => n.from.len() == 1,
        OperatorView::JoinOp { .. } => n.from.len() == 2,
        _ => true,
    }
}

/// Whether every node has as many inputs and outputs as its operator allows.
pub open spec fn shaped(g: Graph) -> bool {
    forall|x: usize| #[trigger] g.contains_key(x) ==> shaped_node(g[x])
}

/// Whether no source is grouped with a target.
pub open spec fn unmixed(nodes: Seq<NodeView>, to_one_target: bool) -> bool {
    forall|a: int, b: int|
        0 <= a < nodes.len() && 0 <= b < nodes.len() && (#[trigger] nodes[a]).operator is SourceOp
            && (#[trigger] nodes[b]).operator is TargetOp ==> io_key(
            nodes[a].operator,
            to_one_target,
        ) != io_key(nodes[b].operator, to_one_target)
}

/// What the passes keep true of a graph.
pub open spec fn sound(g: Graph, nodes: Seq<NodeView>, rank: spec_fn(usize) -> int) -> bool {
    &&& keeps_operators(g, nodes)
    &&& consistent(g)
    &&& ranked(g, rank)
    &&& shaped(g)
}

/// Which identifiers a list holds after a replacement.
pub proof fn lemma_replaced_contains(f: Seq<usize>, a: usize, b: usize, z: usize)
    ensures
        replaced(f, a, b).contains(z) <==> (z != a && f.contains(z)) || (z == b && f.contains(a)),
        replaced(f, a, b).len() == f.len(),
{
    let r = replaced(f, a, b);
    if r.contains(z) {
        let k = choose|k: int| 0 <= k < r.len() && r[k] == z;
        assert(f.contains(f[k]));
    }
    if z != a && f.contains(z) {
        let k = choose|k: int| 0 <= k < f.len() && f[k] == z;
        assert(r[k] == z);
    }
    if z == b && f.contains(a) {
        let k = choose|k: int| 0 <= k < f.len() && f[k] == a;
        assert(r[k] == z);
    }
}

/// Which identifiers two lists hold together.
pub proof fn lemma_joined_contains(f: Seq<usize>, h: Seq<usize>, z: usize)
    ensures
        (f + h).contains(z) <==> f.contains(z) || h.contains(z),
{
    let r = f + h;
    if r.contains(z) {
        let k = choose|k: int| 0 <= k < r.len() && r[k] == z;
        if k < f.len() {
            assert(f[k] == z);
        } else {
            assert(h[k - f.len()] == z);
        }
    }
    if f.contains(z) {
        let k = choose|k: int| 0 <= k < f.len() && f[k] == z;
        assert(r[k] == z);
    }
    if h.contains(z) {
        let k = choose|k: int| 0 <= k < h.len() && h[k] == z;
        assert(r[k + f.len()] == z);
    }
}

/// Merging a node without an edge to itself into another node keeps the edges symmetric.
pub proof fn lemma_merged_consistent(g: Graph, i: usize, s: usize)
    requires
        consistent(g),
        g.contains_key(i),
        g.contains_key(s),
        i != s,
        !g[i].to.contains(i),
    ensures
        consistent(merged(g, i, s)),
{
    let h = merged(g, i, s);
    let o = g[i];
    assert(!o.from.contains(i));
    assert forall|x: usize, y: usize| h.contains_key(x) && #[trigger] h[x].to.contains(
        y,
    ) implies h.contains_key(y) && h[y].from.contains(x) by {
        let base = if y == s {
            g[y].from + o.from
        } else {
            g[y].from
        };
        lemma_joined_contains(g[y].from, o.from, x);
        lemma_joined_contains(g[y].from, o.from, i);
        lemma_replaced_contains(base, i, s, x);
        if o.from.contains(x) && y == s {
        } else if g[x].to.contains(y) {
            assert(g.contains_key(y) && g[y].from.contains(x));
        } else {
            assert(x == s && o.to.contains(y));
            assert(g.contains_key(y) && g[y].from.contains(i));
        }
    }
    assert forall|x: usize, y: usize| h.contains_key(y) && #[trigger] h[y].from.contains(
        x,
    ) implies h.contains_key(x) && h[x].to.contains(y) by {
        let base = if y == s {
            g[y].from + o.from
        } else {
            g[y].from
        };
        lemma_joined_contains(g[y].from, o.from, x);
        lemma_joined_contains(g[y].from, o.from, i);
        lemma_replaced_contains(base, i, s, x);
        if o.to.contains(y) {
            assert(g[y].from.contains(i));
        }
        if base.contains(x) && x != i {
            if g[y].from.contains(x) {
                assert(g.contains_key(x) && g[x].to.contains(y));
            } else {
                assert(y == s && o.from.contains(x));
                assert(g.contains_key(x) && g[x].to.contains(i));
            }
        } else if base.contains(x) {
            assert(x == i);
            if g[y].from.contains(i) {
                assert(o.to.contains(y));
            }
        } else {
            assert(x == s && o.to.contains(y));
        }
    }
}

/// Whether `h` is `g` with node `x` spliced out: `x` is gone, its one upstream node `u` has
/// the downstream nodes of `x` in its place, and they have `u` in place of `x`.
pub open spec fn spliced(g: Graph, h: Graph, x: usize, u: usize) -> bool {
    &&& forall|y: usize| h.contains_key(y) <==> g.contains_key(y) && y != x
    &&& forall|y: usize| #[trigger]
        h.contains_key(y) ==> {
            &&& h[y].operator == g[y].operator
            &&& h[y].to == if y == u {
                g[y].to.remove(x).union(g[x].to)
            } else {
                g[y].to
            }
            &&& h[y].from == if g[x].to.contains(y) {
                replaced(g[y].from, x, u)
            } else {
                g[y].from
            }
        }
}

/// Splicing out a node with one upstream node keeps what the passes keep.
pub proof fn lemma_spliced_sound(
    g: Graph,
    h: Graph,
    x: usize,
    u: usize,
    nodes: Seq<NodeView>,
    rank: spec_fn(usize) -> int,
)
    requires
        sound(g, nodes, rank),
        g.contains_key(x),
        g[x].from.len() > 0,
        forall|z: usize| g[x].from.contains(z) <==> z == u,
        spliced(g, h, x, u),
    ensures
        sound(h, nodes, rank),
{
    let o = g[x];
    assert(o.from.contains(u));
    assert(g.contains_key(u) && g[u].to.contains(x));
    assert(rank(u) < rank(x));
    assert(!o.to.contains(x)) by {
        if o.to.contains(x) {
            assert(o.from.contains(x));
        }
    }
    assert forall|a: usize, b: usize| h.contains_key(a) && #[trigger] h[a].to.contains(
        b,
    ) implies h.contains_key(b) && h[b].from.contains(a) && rank(a) < rank(b) by {
        lemma_replaced_contains(g[b].from, x, u, a);
        if g[a].to.contains(b) {
            assert(g.contains_key(b) && g[b].from.contains(a));
            if b == x {
                assert(o.from.contains(a));
            }
        } else {
            assert(a == u && o.to.contains(b));
            assert(g.contains_key(b) && g[b].from.contains(x));
            assert(rank(x) < rank(b));
        }
    }
    assert forall|a: usize, b: usize| h.contains_key(b) && #[trigger] h[b].from.contains(
        a,
    ) implies h.contains_key(a) && h[a].to.contains(b) by {
        lemma_replaced_contains(g[b].from, x, u, a);
        if g[b].from.contains(a) && a != x {
            assert(g.contains_key(a) && g[a].to.contains(b));
        } else if g[b].from.contains(a) {
            assert(a == x);
            assert(o.to.contains(b));
        } else {
            assert(a == u && o.to.contains(b));
        }
    }
    assert forall|y: usize| #[trigger] h.contains_key(y) implies shaped_node(h[y]) by {
        assert(shaped_node(g[y]));
        lemma_replaced_contains(g[y].from, x, u, y);
        if y == u {
            assert(g[u].to.contains(x));
            assert(g[u].to != Set::<usize>::empty());
        }
    }
}

/// Merging a source into a source with the same key, or a target into such a target,
/// keeps what the passes keep, under a new ranking.
pub proof fn lemma_merged_sound(
    g: Graph,
    i: usize,
    s: usize,
    nodes: Seq<NodeView>,
    rank: spec_fn(usize) -> int,
) -> (next: spec_fn(usize) -> int)
    requires
        sound(g, nodes, rank),
        g.contains_key(i),
        g.contains_key(s),
        i != s,
        (g[i].operator is SourceOp && g[s].operator is SourceOp) || (g[i].operator is TargetOp
            && g[s].operator is TargetOp),
    ensures
        sound(merged(g, i, s), nodes, next),
{
    let h = merged(g, i, s);
    let o = g[i];
    assert(shaped_node(o));
    assert(shaped_node(g[s]));
    assert(!o.to.contains(i)) by {
        if o.to.contains(i) {
            assert(rank(i) < rank(i));
        }
    }
    lemma_merged_consistent(g, i, s);
    let sources = o.operator is SourceOp;
    let low = if rank(s) < rank(i) {
        rank(s)
    } else {
        rank(i)
    };
    let high = if rank(s) < rank(i) {
        rank(i)
    } else {
        rank(s)
    };
    let next = |z: usize|
        if z == s {
            if sources {
                low
            } else {
                high
            }
        } else {
            rank(z)
        };
    assert forall|y: usize| #[trigger] h.contains_key(y) implies shaped_node(h[y])
        && h[y].operator == g[y].operator by {
        assert(shaped_node(g[y]));
        let base = if y == s {
            g[y].from + o.from
        } else {
            g[y].from
        };
        lemma_replaced_contains(base, i, s, y);
        if o.from.contains(y) {
            assert(g[y].to.contains(i));
            assert(g[y].to != Set::<usize>::empty());
        }
        if o.to.contains(y) {
            assert(g[y].from.contains(i));
        }
        if y == s && !sources {
            assert(o.to == Set::<usize>::empty());
            assert(h[y].to =~= Set::<usize>::empty());
        }
    }
    assert forall|a: usize, b: usize| h.contains_key(a) && #[trigger] h[a].to.contains(
        b,
    ) implies next(a) < next(b) by {
        if o.from.contains(a) {
            assert(g[a].to.contains(i));
            assert(rank(a) < rank(i));
        }
        if g[a].to.contains(b) {
            assert(rank(a) < rank(b));
            assert(g[b].from.contains(a));
        }
        if o.to.contains(b) {
            assert(rank(i) < rank(b));
            assert(g[b].from.contains(i));
        }
    }
    next
}

/// A step of a pass keeps what the passes keep, under a new ranking where it merges.
pub proof fn lemma_step_sound(
    pass: Pass,
    nodes: Seq<NodeView>,
    to_one_target: bool,
    g: Graph,
    rank: spec_fn(usize) -> int,
    i: int,
) -> (next: spec_fn(usize) -> int)
    requires
        sound(g, nodes, rank),
        unmixed(nodes, to_one_target),
        0 <= i < nodes.len(),
        nodes.len() <= usize::MAX,
    ensures
        sound(pass_step(pass, nodes, to_one_target, g, i), nodes, next),
{
    let x = i as usize;
    let op = nodes[i].operator;
    let h = pass_step(pass, nodes, to_one_target, g, i);
    if h == g {
        rank
    } else {
        assert(g.contains_key(x));
        assert(g[x].operator == op);
        assert(shaped_node(g[x]));
        match pass {
            Pass::MergeEndpoints => {
                let key = io_key(op, to_one_target)->Some_0;
                lemma_first_keyed(nodes, to_one_target, key, i);
                let s = first_keyed(nodes, to_one_target, key, i)->Some_0;
                assert(g.contains_key(s));
                assert(g[s].operator == nodes[s as int].operator);
                lemma_merged_sound(g, x, s, nodes, rank)
            },
            Pass::SelfJoins => {
                let u = g[x].from[0];
                assert forall|z: usize| g[x].from.contains(z) <==> z == u by {
                    if g[x].from.contains(z) {
                        let k = choose|k: int| 0 <= k < g[x].from.len() && g[x].from[k] == z;
                        assert(k == 0 || k == 1);
                    }
                    assert(g[x].from[0] == u);
                }
                lemma_spliced_sound(g, h, x, u, nodes, rank);
                rank
            },
            _ => {
                let u = g[x].from[0];
                assert forall|z: usize| g[x].from.contains(z) <==> z == u by {
                    assert(g[x].from[0] == u);
                }
                assert(g[x].from.contains(u));
                assert(g.contains_key(u) && g[u].to.contains(x));
                assert(rank(u) < rank(x));
                assert(g[x].from.drop_last().len() == 0);
                assert(first_upstream(g, x, g[x].from.drop_last()) is None);
                assert(first_upstream(g, x, g[x].from) == Some(u));
                lemma_spliced_sound(g, h, x, u, nodes, rank);
                rank
            },
        }
    }
}

/// A pass keeps what the passes keep.
pub proof fn lemma_pass_sound(
    pass: Pass,
    nodes: Seq<NodeView>,
    to_one_target: bool,
    g: Graph,
    rank: spec_fn(usize) -> int,
    n: int,
) -> (next: spec_fn(usize) -> int)
    requires
        sound(g, nodes, rank),
        unmixed(nodes, to_one_target),
        0 <= n <= nodes.len(),
        nodes.len() <= usize::MAX,
    ensures
        sound(after_pass(pass, nodes, to_one_target, g, n), nodes, next),
    decreases n,
{
    if n > 0 {
        let r1 = lemma_pass_sound(pass, nodes, to_one_target, g, rank, n - 1);
        let before = after_pass(pass, nodes, to_one_target, g, n - 1);
        lemma_step_sound(pass, nodes, to_one_target, before, r1, n - 1)
    } else {
        rank
    }
}

/// Whether every edge leads to a node of higher rank.
pub open spec fn edges_ranked(edges: Seq<(usize, usize)>, rank: spec_fn(usize) -> int) -> bool {
    forall|e: int| 0 <= e < edges.len() ==> rank((#[trigger] edges[e]).0) < rank(edges[e].1)
}

/// What is asked of a plan for the rewritten plan to have symmetric edges:
/// the edges run between nodes of the plan and form no cycle, the nodes come without
/// edges of their own, each node has as many inputs and outputs as its operator allows
/// once the edges are loaded, and no source is grouped with a target.
pub open spec fn well_formed(
    nodes: Seq<NodeView>,
    edges: Seq<(usize, usize)>,
    to_one_target: bool,
) -> bool {
    &&& nodes.len() <= usize::MAX
    &&& forall|e: int|
        0 <= e < edges.len() ==> (#[trigger] edges[e]).0 < nodes.len() && edges[e].1 < nodes.len()
    &&& forall|x: int|
        0 <= x < nodes.len() ==> (#[trigger] nodes[x]).from.len() == 0 && nodes[x].to
            == Set::<usize>::empty()
    &&& exists|rank: spec_fn(usize) -> int| edges_ranked(edges, rank)
    &&& shaped(with_edges(listed(nodes), edges))
    &&& unmixed(nodes, to_one_target)
}

/// Loading ranked edges into nodes without edges gives symmetric, ranked edges.
pub proof fn lemma_loaded_consistent(
    nodes: Seq<NodeView>,
    edges: Seq<(usize, usize)>,
    rank: spec_fn(usize) -> int,
)
    requires
        forall|e: int|
            0 <= e < edges.len() ==> (#[trigger] edges[e]).0 < nodes.len() && edges[e].1
                < nodes.len(),
        forall|x: int|
            0 <= x < nodes.len() ==> (#[trigger] nodes[x]).from.len() == 0 && nodes[x].to
                == Set::<usize>::empty(),
        edges_ranked(edges, rank),
    ensures
        consistent(with_edges(listed(nodes), edges)),
        ranked(with_edges(listed(nodes), edges), rank),
    decreases edges.len(),
{
    if edges.len() == 0 {
        let g = listed(nodes);
        assert forall|x: usize, y: usize| g.contains_key(x) implies !g[x].to.contains(y)
            && !g[x].from.contains(y) by {
            assert(nodes[x as int].from.len() == 0);
        }
    } else {
        let rest = edges.drop_last();
        assert forall|e: int| 0 <= e < rest.len() implies (#[trigger] rest[e]).0 < nodes.len()
            && rest[e].1 < nodes.len() && rank(rest[e].0) < rank(rest[e].1) by {
            assert(rest[e] == edges[e]);
        }
        lemma_loaded_consistent(nodes, rest, rank);
        lemma_edges_keep_operators(nodes, rest);
        let g = with_edges(listed(nodes), rest);
        let f = edges.last().0;
        let t = edges.last().1;
        assert(edges[edges.len() - 1] == edges.last());
        assert(g.contains_key(f) && g.contains_key(t));
        let h = with_edge(g, f, t);
        let g1 = g.insert(f, NodeView { to: g[f].to.insert(t), ..g[f] });
        assert forall|x: usize, y: usize| h.contains_key(x) && #[trigger] h[x].to.contains(
            y,
        ) implies h.contains_key(y) && h[y].from.contains(x) && rank(x) < rank(y) by {
            if g[x].to.contains(y) {
                assert(g[y].from.contains(x));
                let k = choose|k: int| 0 <= k < g[y].from.len() && g[y].from[k] == x;
                assert(g[y].from.push(f)[k] == x);
            } else {
                assert(x == f && y == t);
                assert(g1[t].from.push(f)[g1[t].from.len() as int] == f);
            }
        }
        assert forall|x: usize, y: usize| h.contains_key(y) && #[trigger] h[y].from.contains(
            x,
        ) implies h.contains_key(x) && h[x].to.contains(y) by {
            let k = choose|k: int| 0 <= k < h[y].from.len() && h[y].from[k] == x;
            if k < g[y].from.len() {
                assert(g[y].from[k] == x);
                assert(g[y].from.contains(x));
                assert(g[x].to.contains(y));
            }
        }
    }
}

/// The rewritten plan of a well-formed plan has symmetric edges: for all nodes `x` and `y`
/// of it, `y` is downstream of `x` exactly if `x` is upstream of `y`.
pub proof fn rewritten_is_symmetric(
    nodes: Seq<NodeView>,
    edges: Seq<(usize, usize)>,
    to_one_target: bool,
)
    requires
        well_formed(nodes, edges, to_one_target),
    ensures
        consistent(rewritten(nodes, edges, to_one_target)),
        shaped(rewritten(nodes, edges, to_one_target)),
{
    let n = nodes.len() as int;
    let rank = choose|rank: spec_fn(usize) -> int| edges_ranked(edges, rank);
    let g0 = with_edges(listed(nodes), edges);
    lemma_loaded_consistent(nodes, edges, rank);
    lemma_edges_keep_operators(nodes, edges);
    let r1 = lemma_pass_sound(Pass::MergeEndpoints, nodes, to_one_target, g0, rank, n);
    let g1 = after_pass(Pass::MergeEndpoints, nodes, to_one_target, g0, n);
    let r2 = lemma_pass_sound(Pass::Fragmenters, nodes, to_one_target, g1, r1, n);
    let g2 = after_pass(Pass::Fragmenters, nodes, to_one_target, g1, n);
    let r3 = lemma_pass_sound(Pass::Projections, nodes, to_one_target, g2, r2, n);
    let g3 = after_pass(Pass::Projections, nodes, to_one_target, g2, n);
    let r4 = lemma_pass_sound(Pass::SelfJoins, nodes, to_one_target, g3, r3, n);
}

/// Whether node `x` is a source or a target and the first node with its key.
pub open spec fn is_first(nodes: Seq<NodeView>, to_one_target: bool, x: int) -> bool {
    match io_key(nodes[x].operator, to_one_target) {
        Some(key) => first_keyed(nodes, to_one_target, key, x) is None,
        None => false,
    }
}

/// After the merging pass has gone over the first `k` nodes, those of them that are
/// left are the first of their keys or have no key, and all later nodes are still there.
pub proof fn lemma_merge_pass_nodes(
    nodes: Seq<NodeView>,
    to_one_target: bool,
    g0: Graph,
    k: int,
)
    requires
        nodes.len() <= usize::MAX,
        0 <= k <= nodes.len(),
        forall|x: usize| g0.contains_key(x) <==> x < nodes.len(),
    ensures
        forall|x: usize|
            x < nodes.len() ==> (#[trigger] after_pass(
                Pass::MergeEndpoints,
                nodes,
                to_one_target,
                g0,
                k,
            ).contains_key(x) <==> x >= k || io_key(nodes[x as int].operator, to_one_target)
                is None || is_first(nodes, to_one_target, x as int)),
    decreases k,
{
    if k > 0 {
        lemma_merge_pass_nodes(nodes, to_one_target, g0, k - 1);
        let g = after_pass(Pass::MergeEndpoints, nodes, to_one_target, g0, k - 1);
        let h = after_pass(Pass::MergeEndpoints, nodes, to_one_target, g0, k);
        let i = (k - 1) as usize;
        assert(g.contains_key(i));
        match io_key(nodes[k - 1].operator, to_one_target) {
            Some(key) => {
                lemma_first_keyed(nodes, to_one_target, key, k - 1);
                match first_keyed(nodes, to_one_target, key, k - 1) {
                    Some(s) => {
                        lemma_first_keyed(nodes, to_one_target, key, s as int);
                        assert(is_first(nodes, to_one_target, s as int));
                        assert(g.contains_key(s));
                        assert(h == merged(g, i, s));
                        assert forall|x: usize| x < nodes.len() implies (#[trigger] h.contains_key(
                            x,
                        ) <==> x >= k || io_key(nodes[x as int].operator, to_one_target) is None
                            || is_first(nodes, to_one_target, x as int)) by {
                            assert(h.contains_key(x) <==> g.contains_key(x) && x != i);
                        }
                    },
                    None => {},
                }
            },
            None => {},
        }
    }
}

/// Whether no two nodes of the graph are sources or targets with one and the same key.
pub open spec fn one_node_per_key(g: Graph, nodes: Seq<NodeView>, to_one_target: bool) -> bool {
    forall|x: usize, y: usize|
        #![trigger g.contains_key(x), g.contains_key(y)]
        g.contains_key(x) && g.contains_key(y) && x < nodes.len() && y < nodes.len() && io_key(
            nodes[x as int].operator,
            to_one_target,
        ) is Some && io_key(nodes[x as int].operator, to_one_target) == io_key(
            nodes[y as int].operator,
            to_one_target,
        ) ==> x == y
}

/// Of the sources with one key, and of the targets with one key, the rewritten plan holds
/// one at most.
pub proof fn rewritten_keeps_one_node_per_key(
    nodes: Seq<NodeView>,
    edges: Seq<(usize, usize)>,
    to_one_target: bool,
)
    requires
        nodes.len() <= usize::MAX,
    ensures
        one_node_per_key(rewritten(nodes, edges, to_one_target), nodes, to_one_target),
{
    let n = nodes.len() as int;
    let g0 = with_edges(listed(nodes), edges);
    let g1 = after_pass(Pass::MergeEndpoints, nodes, to_one_target, g0, n);
    let g2 = after_pass(Pass::Fragmenters, nodes, to_one_target, g1, n);
    let g3 = after_pass(Pass::Projections, nodes, to_one_target, g2, n);
    let g4 = after_pass(Pass::SelfJoins, nodes, to_one_target, g3, n);
    lemma_edges_keep_operators(nodes, edges);
    assert forall|x: usize| g0.contains_key(x) <==> x < nodes.len() by {
        assert(listed(nodes).contains_key(x) <==> x < nodes.len());
    }
    lemma_merge_pass_nodes(nodes, to_one_target, g0, n);
    lemma_pass_keeps_operators(Pass::MergeEndpoints, nodes, to_one_target, g0, n);
    lemma_pass_keeps_operators(Pass::Fragmenters, nodes, to_one_target, g1, n);
    lemma_pass_keeps_operators(Pass::Projections, nodes, to_one_target, g2, n);
    lemma_pass_keeps_operators(Pass::SelfJoins, nodes, to_one_target, g3, n);
    assert forall|x: usize, y: usize|
        g4.contains_key(x) && g4.contains_key(y) && x < nodes.len() && y < nodes.len() && io_key(
            nodes[x as int].operator,
            to_one_target,
        ) is Some && io_key(nodes[x as int].operator, to_one_target) == io_key(
            nodes[y as int].operator,
            to_one_target,
        ) implies x == y by {
        assert(g3.contains_key(x) && g2.contains_key(x) && g1.contains_key(x));
        assert(g3.contains_key(y) && g2.contains_key(y) && g1.contains_key(y));
        let key = io_key(nodes[x as int].operator, to_one_target)->Some_0;
        assert(is_first(nodes, to_one_target, x as int));
        assert(is_first(nodes, to_one_target, y as int));
        lemma_first_keyed(nodes, to_one_target, key, x as int);
        lemma_first_keyed(nodes, to_one_target, key, y as int);
    }
}

} // verus!
