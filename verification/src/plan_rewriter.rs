use vstd::prelude::*;
use std::collections::HashMap;
use std::collections::HashSet;
use crate::plan::{attribute_union, opt_texts, replaced, Node, NodeView, PlanGraph};
use crate::schema::{Operator, OperatorView};
use crate::text::{copy_strings, texts};

verus! {

broadcast use vstd::std_specs::hash::group_hash_axioms;

/// A plan as a graph: the nodes that are left, by their identifiers.
pub type Graph = Map<usize, NodeView>;

/// The content of the nodes of a plan, in order.
pub open spec fn nodes_of(plan: &PlanGraph) -> Seq<NodeView> {
    Seq::new(plan.nodes@.len(), |i: int| plan.nodes@[i]@)
}

/// The content of a map of nodes.
pub open spec fn graph_of(m: Map<usize, Node>) -> Graph {
    Map::new(|k: usize| m.contains_key(k), |k: usize| m[k]@)
}

/// Every node under its place in the list.
pub open spec fn listed(nodes: Seq<NodeView>) -> Graph {
    Map::new(|i: usize| i < nodes.len(), |i: usize| nodes[i as int])
}

/// The graph with one more edge: `t` among the downstream nodes of `f`, and `f` at the end of
/// the upstream nodes of `t`.
pub open spec fn with_edge(g: Graph, f: usize, t: usize) -> Graph {
    if g.contains_key(f) && g.contains_key(t) {
        let g1 = g.insert(f, NodeView { to: g[f].to.insert(t), ..g[f] });
        g1.insert(t, NodeView { from: g1[t].from.push(f), ..g1[t] })
    } else {
        g
    }
}

/// The graph with the edges added in order.
pub open spec fn with_edges(g: Graph, edges: Seq<(usize, usize)>) -> Graph
    decreases edges.len(),
{
    if edges.len() == 0 {
        g
    } else {
        with_edge(with_edges(g, edges.drop_last()), edges.last().0, edges.last().1)
    }
}

/// The key under which a source or a target is grouped with its equals: its fingerprint,
/// or 0 for every target where all output goes to one place. Other operators have none.
pub open spec fn io_key(op: OperatorView, to_one_target: bool) -> Option<u64> {
    match op {
        OperatorView::SourceOp { fingerprint, .. } => Some(fingerprint),
        OperatorView::TargetOp { fingerprint, .. } => Some(
            if to_one_target {
                0u64
            } else {
                fingerprint
            },
        ),
        _ => None,
    }
}

/// The first of the nodes before `n` that has the key `key`.
pub open spec fn first_keyed(nodes: Seq<NodeView>, to_one_target: bool, key: u64, n: int) -> Option<
    usize,
>
    decreases n,
{
    if n <= 0 || n > nodes.len() {
        None
    } else {
        match first_keyed(nodes, to_one_target, key, n - 1) {
            Some(s) => Some(s),
            None => if io_key(nodes[n - 1].operator, to_one_target) == Some(key) {
                Some((n - 1) as usize)
            } else {
                None
            },
        }
    }
}

/// The graph after node `i` is merged into node `s`: `s` takes over the edges of `i`, the
/// neighbours of `i` point to `s` instead, and `i` is gone.
pub open spec fn merged(g: Graph, i: usize, s: usize) -> Graph {
    if g.contains_key(i) && g.contains_key(s) && i != s {
        Map::new(|x: usize| g.contains_key(x) && x != i, |x: usize| merged_node(g, i, s, x))
    } else {
        g
    }
}

/// What node `x` is after `i` is merged into `s`.
pub open spec fn merged_node(g: Graph, i: usize, s: usize, x: usize) -> NodeView {
    let o = g[i];
    let n0 = g[x];
    let n1 = if x == s {
        NodeView { to: n0.to.union(o.to), from: n0.from + o.from, ..n0 }
    } else {
        n0
    };
    let n2 = if o.to.contains(x) {
        NodeView { from: replaced(n1.from, i, s), ..n1 }
    } else {
        n1
    };
    if o.from.contains(x) {
        NodeView { to: n2.to.remove(i).insert(s), ..n2 }
    } else {
        n2
    }
}

/// The first upstream node of `x` that is in the graph and is not `x` itself.
pub open spec fn first_upstream(g: Graph, x: usize, from: Seq<usize>) -> Option<usize>
    decreases from.len(),
{
    if from.len() == 0 {
        None
    } else {
        match first_upstream(g, x, from.drop_last()) {
            Some(u) => Some(u),
            None => if g.contains_key(from.last()) && from.last() != x {
                Some(from.last())
            } else {
                None
            },
        }
    }
}

/// The graph after node `x` is taken out and its upstream nodes are joined to its
/// downstream nodes. Each upstream node gets the downstream nodes of `x` in place of `x`,
/// and `attributes` united with its own; each downstream node gets the first upstream node
/// in place of `x`.
pub open spec fn contracted(g: Graph, x: usize, attributes: Option<Seq<Seq<char>>>) -> Graph {
    if g.contains_key(x) {
        Map::new(
            |y: usize| g.contains_key(y) && y != x,
            |y: usize| contracted_node(g, x, attributes, y),
        )
    } else {
        g
    }
}

/// What node `y` is after `x` is taken out.
pub open spec fn contracted_node(
    g: Graph,
    x: usize,
    attributes: Option<Seq<Seq<char>>>,
    y: usize,
) -> NodeView {
    let o = g[x];
    let n0 = g[y];
    let n1 = if o.from.contains(y) {
        NodeView {
            to: n0.to.remove(x).union(o.to),
            attributes: attribute_union(n0.attributes, attributes),
            ..n0
        }
    } else {
        n0
    };
    match first_upstream(g, x, o.from) {
        Some(u) => if o.to.contains(y) {
            NodeView { from: replaced(n1.from, x, u), ..n1 }
        } else {
            n1
        },
        None => n1,
    }
}

/// Whether node `j` has its first two inputs from one and the same node.
pub open spec fn is_self_join(g: Graph, j: usize) -> bool {
    g.contains_key(j) && g[j].from.len() >= 2 && g[j].from[0] == g[j].from[1]
}

/// The graph after the self-join `j` is taken out: its one upstream node stands for it in
/// each downstream node, which also gets the alias; the upstream node gets the downstream
/// nodes of `j` in place of `j`.
pub open spec fn self_join_elided(g: Graph, j: usize, alias: Seq<char>) -> Graph {
    if is_self_join(g, j) {
        Map::new(
            |y: usize| g.contains_key(y) && y != j,
            |y: usize| self_join_elided_node(g, j, alias, y),
        )
    } else {
        g
    }
}

/// What node `y` is after the self-join `j` is taken out.
pub open spec fn self_join_elided_node(g: Graph, j: usize, alias: Seq<char>, y: usize) -> NodeView {
    let o = g[j];
    let u = o.from[0];
    let n0 = g[y];
    let n1 = if o.to.contains(y) {
        NodeView { from: replaced(n0.from, j, u), join_alias: Some(alias), ..n0 }
    } else {
        n0
    };
    if y == u {
        NodeView { to: n1.to.remove(j).union(o.to), ..n1 }
    } else {
        n1
    }
}

/// The passes that follow the loading of the edges, in the order in which they run.
pub enum Pass {
    MergeEndpoints,
    Fragmenters,
    Projections,
    SelfJoins,
}

/// What a pass does when it comes to node `i`.
pub open spec fn pass_step(
    pass: Pass,
    nodes: Seq<NodeView>,
    to_one_target: bool,
    g: Graph,
    i: int,
) -> Graph {
    let op = nodes[i].operator;
    match pass {
        Pass::MergeEndpoints => match io_key(op, to_one_target) {
            Some(key) => match first_keyed(nodes, to_one_target, key, i) {
                Some(s) => merged(g, i as usize, s),
                None => g,
            },
            None => g,
        },
        Pass::Fragmenters => match op {
            OperatorView::FragmentOp => contracted(g, i as usize, None),
            _ => g,
        },
        Pass::Projections => match op {
            OperatorView::ProjectOp { projection_attributes } => contracted(
                g,
                i as usize,
                Some(projection_attributes),
            ),
            _ => g,
        },
        Pass::SelfJoins => match op {
            OperatorView::JoinOp { join_alias, .. } => self_join_elided(g, i as usize, join_alias),
            _ => g,
        },
    }
}

/// The graph after a pass has gone over the first `n` nodes, in order.
pub open spec fn after_pass(
    pass: Pass,
    nodes: Seq<NodeView>,
    to_one_target: bool,
    g: Graph,
    n: int,
) -> Graph
    decreases n,
{
    if n <= 0 {
        g
    } else {
        pass_step(pass, nodes, to_one_target, after_pass(pass, nodes, to_one_target, g, n - 1), n - 1)
    }
}

/// The rewritten plan: the edges are loaded into the nodes, equal sources and equal targets
/// are merged into the first of them, and then the fragmenters, the projections and the
/// self-joins are taken out, each pass going over the nodes in order.
pub open spec fn rewritten(
    nodes: Seq<NodeView>,
    edges: Seq<(usize, usize)>,
    to_one_target: bool,
) -> Graph {
    let n = nodes.len() as int;
    let g0 = with_edges(listed(nodes), edges);
    let g1 = after_pass(Pass::MergeEndpoints, nodes, to_one_target, g0, n);
    let g2 = after_pass(Pass::Fragmenters, nodes, to_one_target, g1, n);
    let g3 = after_pass(Pass::Projections, nodes, to_one_target, g2, n);
    after_pass(Pass::SelfJoins, nodes, to_one_target, g3, n)
}

/// Whether every edge runs between nodes of the plan.
pub open spec fn edges_in_range(plan: &PlanGraph) -> bool {
    forall|e: int|
        0 <= e < plan.edges@.len() ==> plan.edges@[e].0 < plan.nodes@.len() && plan.edges@[e].1
            < plan.nodes@.len()
}

/// Tells whether every edge runs between nodes of the plan.
pub fn check_edges(plan: &PlanGraph) -> (ok: bool)
    ensures
        ok == edges_in_range(plan),
{
    let n = plan.nodes.len();
    let mut e: usize = 0;
    while e < plan.edges.len()
        invariant
            e <= plan.edges.len(),
            n == plan.nodes.len(),
            forall|k: int| 0 <= k < e ==> plan.edges@[k].0 < n && plan.edges@[k].1 < n,
        decreases plan.edges.len() - e,
    {
        if plan.edges[e].0 >= n || plan.edges[e].1 >= n {
            return false;
        }
        e += 1;
    }
    true
}

/// The nodes of the plan under their places, with the edges loaded into them.
fn load(plan: &PlanGraph) -> (m: HashMap<usize, Node>)
    requires
        edges_in_range(plan),
    ensures
        graph_of(m@) == with_edges(listed(nodes_of(plan)), plan.edges@),
        m@.dom() == Set::new(|k: usize| k < plan.nodes@.len()),
{
    let mut m: HashMap<usize, Node> = HashMap::new();
    let n = plan.nodes.len();
    let ghost nodes = nodes_of(plan);
    let mut i: usize = 0;
    while i < n
        invariant
            i <= n,
            n == plan.nodes.len(),
            nodes == nodes_of(plan),
            m@.dom() == Set::new(|k: usize| k < i),
            forall|k: usize| k < i ==> (#[trigger] m@[k])@ == nodes[k as int],
        decreases n - i,
    {
        let node = plan.nodes[i].duplicate();
        m.insert(i, node);
        assert(m@.dom() =~= Set::new(|k: usize| k < i + 1));
        i += 1;
    }
    assert(graph_of(m@) =~= listed(nodes));
    let mut e: usize = 0;
    assert(plan.edges@.take(0) =~= Seq::empty());
    while e < plan.edges.len()
        invariant
            e <= plan.edges.len(),
            n == plan.nodes.len(),
            nodes == nodes_of(plan),
            edges_in_range(plan),
            m@.dom() == Set::new(|k: usize| k < n),
            graph_of(m@) == with_edges(listed(nodes), plan.edges@.take(e as int)),
        decreases plan.edges.len() - e,
    {
        let f = plan.edges[e].0;
        let t = plan.edges[e].1;
        let ghost g = graph_of(m@);
        proof {
            assert(plan.edges@.take(e + 1).drop_last() =~= plan.edges@.take(e as int));
            assert(m@.contains_key(f) && m@.contains_key(t));
        }
        let o = m.remove(&f);
        if let Some(mut node) = o {
            node.add_to(t);
            m.insert(f, node);
        }
        let ghost g1 = g.insert(f, NodeView { to: g[f].to.insert(t), ..g[f] });
        assert(graph_of(m@) =~= g1);
        let o = m.remove(&t);
        if let Some(mut node) = o {
            node.add_from(f);
            m.insert(t, node);
        }
        assert(graph_of(m@) =~= with_edge(g, f, t));
        assert(m@.dom() =~= Set::new(|k: usize| k < n));
        e += 1;
    }
    assert(plan.edges@.take(e as int) =~= plan.edges@);
    m
}

/// The identifiers in a set, each once, in some order.
fn ids_of(s: &HashSet<usize>) -> (v: Vec<usize>)
    ensures
        v@.to_set() == s@,
{
    let mut v: Vec<usize> = Vec::new();
    for x in it: s.iter()
        invariant
            it.seq().unref().to_set() == s@,
            v@ == it.seq().unref().take(it.index() as int),
            it.index() == it.seq().len() ==> v@.to_set() == s@,
    {
        v.push(*x);
        proof {
            let q = it.seq().unref();
            assert(v@ =~= q.take(it.index() + 1));
            assert(q.take(q.len() as int) =~= q);
        }
    }
    v
}

/// What node `x` is while `i` is being merged into `s`: the survivor has the edges of `i`,
/// and the neighbours in `down` and `up` point to `s` already.
pub open spec fn merging_node(
    g: Graph,
    i: usize,
    s: usize,
    x: usize,
    down: Set<usize>,
    up: Set<usize>,
) -> NodeView {
    let o = g[i];
    let n0 = g[x];
    let n1 = if x == s {
        NodeView { to: n0.to.union(o.to), from: n0.from + o.from, ..n0 }
    } else {
        n0
    };
    let n2 = if down.contains(x) {
        NodeView { from: replaced(n1.from, i, s), ..n1 }
    } else {
        n1
    };
    if up.contains(x) {
        NodeView { to: n2.to.remove(i).insert(s), ..n2 }
    } else {
        n2
    }
}

/// The graph while `i` is being merged into `s`.
pub open spec fn merging(g: Graph, i: usize, s: usize, down: Set<usize>, up: Set<usize>) -> Graph {
    Map::new(
        |x: usize| g.contains_key(x) && x != i,
        |x: usize| merging_node(g, i, s, x, down, up),
    )
}

/// Merges node `i` into node `s`.
fn merge_into(m: &mut HashMap<usize, Node>, i: usize, s: usize)
    ensures
        graph_of(final(m)@) == merged(graph_of(old(m)@), i, s),
{
    let ghost g = graph_of(m@);
    if i == s || !m.contains_key(&s) {
        return ;
    }
    let removed = m.remove(&i);
    match removed {
        None => {
            assert(graph_of(m@) =~= g);
        },
        Some(other) => {
            let ghost o = g[i];
            let kept = m.remove(&s);
            if let Some(mut survivor) = kept {
                survivor.add_all_to(&other.to);
                survivor.add_all_from(other.from.as_slice());
                m.insert(s, survivor);
            }
            assert(graph_of(m@) =~~= merging(g, i, s, Set::empty(), Set::empty()));
            let down = ids_of(&other.to);
            let mut k: usize = 0;
            assert(down@.take(0) =~= Seq::empty());
            assert(down@.take(0).to_set() =~= Set::empty());
            while k < down.len()
                invariant
                    k <= down.len(),
                    i != s,
                    graph_of(m@) == merging(g, i, s, down@.take(k as int).to_set(), Set::empty()),
                decreases down.len() - k,
            {
                let d = down[k];
                let ghost before = down@.take(k as int).to_set();
                let found = m.remove(&d);
                if let Some(mut node) = found {
                    node.replace_from(i, s);
                    m.insert(d, node);
                }
                proof {
                    crate::plan::lemma_take_next_to_set(down@, k as int);
                    let after = down@.take(k + 1).to_set();
                    assert(after == before.insert(d));
                    assert forall|x: usize| g.contains_key(x) && x != i implies #[trigger] graph_of(
                        m@,
                    )[x] =~~= merging_node(g, i, s, x, after, Set::empty()) by {
                        assert(merging(g, i, s, before, Set::empty())[x] == merging_node(
                            g,
                            i,
                            s,
                            x,
                            before,
                            Set::empty(),
                        ));
                        if x == d {
                            let f = merging_node(g, i, s, x, before, Set::empty()).from;
                            assert(replaced(replaced(f, i, s), i, s) =~= replaced(f, i, s));
                        }
                    }
                    assert(graph_of(m@) =~~= merging(g, i, s, after, Set::empty()));
                }
                k += 1;
            }
            assert(down@.take(k as int) =~= down@);
            let mut k: usize = 0;
            assert(other.from@.take(0) =~= Seq::empty());
            assert(other.from@.take(0).to_set() =~= Set::empty());
            while k < other.from.len()
                invariant
                    k <= other.from.len(),
                    i != s,
                    other.from@ == o.from,
                    graph_of(m@) == merging(g, i, s, o.to, other.from@.take(k as int).to_set()),
                decreases other.from.len() - k,
            {
                let u = other.from[k];
                let ghost before = other.from@.take(k as int).to_set();
                let found = m.remove(&u);
                if let Some(mut node) = found {
                    node.replace_to(i, s);
                    m.insert(u, node);
                }
                proof {
                    crate::plan::lemma_take_next_to_set(other.from@, k as int);
                    let after = other.from@.take(k + 1).to_set();
                    assert(after == before.insert(u));
                    assert forall|x: usize| g.contains_key(x) && x != i implies #[trigger] graph_of(
                        m@,
                    )[x] =~~= merging_node(g, i, s, x, o.to, after) by {
                        assert(merging(g, i, s, o.to, before)[x] == merging_node(
                            g,
                            i,
                            s,
                            x,
                            o.to,
                            before,
                        ));
                        assert(merging(g, i, s, o.to, before).contains_key(x));
                        assert(m@.contains_key(x));
                        if x != u {
                            assert(graph_of(m@)[x] == merging_node(g, i, s, x, o.to, before));
                        }
                        if x == u {
                            let t = merging_node(g, i, s, x, o.to, Set::empty()).to;
                            assert(t.remove(i).insert(s).remove(i).insert(s) =~= t.remove(i).insert(s));
                            assert(merging_node(g, i, s, x, o.to, after).to =~= t.remove(i).insert(s));
                            assert(graph_of(m@)[x].to =~= t.remove(i).insert(s));
                        }
                    }
                    assert(graph_of(m@) =~~= merging(g, i, s, o.to, after));
                }
                k += 1;
            }
            proof {
                assert(other.from@.take(k as int) =~= other.from@);
                assert forall|x: usize| g.contains_key(x) && x != i implies merging_node(
                    g,
                    i,
                    s,
                    x,
                    o.to,
                    o.from.to_set(),
                ) == merged_node(g, i, s, x) by {}
                assert(graph_of(m@) =~~= merged(g, i, s));
            }
        },
    }
}

/// What node `y` is while `x` is being taken out: the upstream nodes in `ups` have the
/// downstream nodes of `x` already, and the downstream nodes in `down` have `first`.
pub open spec fn contracting_node(
    g: Graph,
    x: usize,
    attributes: Option<Seq<Seq<char>>>,
    y: usize,
    ups: Set<usize>,
    first: Option<usize>,
    down: Set<usize>,
) -> NodeView {
    let o = g[x];
    let n0 = g[y];
    let n1 = if ups.contains(y) {
        NodeView {
            to: n0.to.remove(x).union(o.to),
            attributes: attribute_union(n0.attributes, attributes),
            ..n0
        }
    } else {
        n0
    };
    match first {
        Some(u) => if down.contains(y) {
            NodeView { from: replaced(n1.from, x, u), ..n1 }
        } else {
            n1
        },
        None => n1,
    }
}

/// The graph while `x` is being taken out.
pub open spec fn contracting(
    g: Graph,
    x: usize,
    attributes: Option<Seq<Seq<char>>>,
    ups: Set<usize>,
    first: Option<usize>,
    down: Set<usize>,
) -> Graph {
    Map::new(
        |y: usize| g.contains_key(y) && y != x,
        |y: usize| contracting_node(g, x, attributes, y, ups, first, down),
    )
}

fn copy_attributes(attributes: &Option<Vec<String>>) -> (r: Option<Vec<String>>)
    ensures
        opt_texts(r) == opt_texts(*attributes),
{
    match attributes {
        Some(names) => Some(copy_strings(names.as_slice())),
        None => None,
    }
}

/// Takes node `x` out and joins its upstream nodes to its downstream nodes.
fn contract(m: &mut HashMap<usize, Node>, x: usize, attributes: &Option<Vec<String>>)
    ensures
        graph_of(final(m)@) == contracted(graph_of(old(m)@), x, opt_texts(*attributes)),
{
    let ghost g = graph_of(m@);
    let ghost attrs = opt_texts(*attributes);
    let removed = m.remove(&x);
    match removed {
        None => {
            assert(graph_of(m@) =~= g);
        },
        Some(node) => {
            let ghost o = g[x];
            let down = ids_of(&node.to);
            let mut first: Option<usize> = None;
            let mut k: usize = 0;
            assert(node.from@.take(0) =~= Seq::empty());
            assert(node.from@.take(0).to_set() =~= Set::empty());
            assert(graph_of(m@) =~~= contracting(g, x, attrs, Set::empty(), None, o.to));
            while k < node.from.len()
                invariant
                    k <= node.from.len(),
                    node@ == o,
                    g.contains_key(x),
                    o == g[x],
                    attrs == opt_texts(*attributes),
                    down@.to_set() == o.to,
                    first == first_upstream(g, x, node.from@.take(k as int)),
                    first is Some ==> first->Some_0 != x,
                    graph_of(m@) == contracting(
                        g,
                        x,
                        attrs,
                        node.from@.take(k as int).to_set(),
                        first,
                        o.to,
                    ),
                decreases node.from.len() - k,
            {
                let u = node.from[k];
                let ghost ups = node.from@.take(k as int).to_set();
                let ghost ups1 = node.from@.take(k + 1).to_set();
                proof {
                    crate::plan::lemma_take_next_to_set(node.from@, k as int);
                    assert(node.from@.take(k + 1).drop_last() =~= node.from@.take(k as int));
                    assert(graph_of(m@).contains_key(u) == m@.contains_key(u));
                    assert(contracting(g, x, attrs, ups, first, o.to).contains_key(u) == (
                    g.contains_key(u) && u != x));
                    assert(m@.contains_key(u) == (g.contains_key(u) && u != x));
                }
                let found = m.remove(&u);
                if let Some(mut up) = found {
                    up.change_to_ids(&node.to, x);
                    up.add_attributes(copy_attributes(attributes));
                    m.insert(u, up);
                    proof {
                        assert forall|y: usize| g.contains_key(y) && y != x implies #[trigger] graph_of(
                            m@,
                        )[y] =~~= contracting_node(g, x, attrs, y, ups1, first, o.to) by {
                            assert(contracting(g, x, attrs, ups, first, o.to).contains_key(y));
                            assert(contracting(g, x, attrs, ups, first, o.to)[y] == contracting_node(
                                g,
                                x,
                                attrs,
                                y,
                                ups,
                                first,
                                o.to,
                            ));
                            if y == u {
                                let t = g[y].to;
                                assert(t.remove(x).union(o.to).remove(x).union(o.to) =~= t.remove(
                                    x,
                                ).union(o.to));
                                crate::plan::lemma_union_again(g[y].attributes, attrs);
                            }
                        }
                        assert(graph_of(m@) =~~= contracting(g, x, attrs, ups1, first, o.to));
                    }
                    if first.is_none() {
                        let mut j: usize = 0;
                        assert(down@.take(0) =~= Seq::empty());
                        assert(down@.take(0).to_set() =~= Set::empty());
                        assert(graph_of(m@) =~~= contracting(
                            g,
                            x,
                            attrs,
                            ups1,
                            Some(u),
                            Set::empty(),
                        ));
                        while j < down.len()
                            invariant
                                j <= down.len(),
                                u != x,
                                graph_of(m@) == contracting(
                                    g,
                                    x,
                                    attrs,
                                    ups1,
                                    Some(u),
                                    down@.take(j as int).to_set(),
                                ),
                            decreases down.len() - j,
                        {
                            let d = down[j];
                            let ghost done = down@.take(j as int).to_set();
                            let got = m.remove(&d);
                            if let Some(mut dn) = got {
                                dn.replace_from(x, u);
                                m.insert(d, dn);
                            }
                            proof {
                                crate::plan::lemma_take_next_to_set(down@, j as int);
                                let done1 = down@.take(j + 1).to_set();
                                assert forall|y: usize|
                                    g.contains_key(y) && y != x implies #[trigger] graph_of(
                                    m@,
                                )[y] =~~= contracting_node(g, x, attrs, y, ups1, Some(u), done1) by {
                                    assert(contracting(g, x, attrs, ups1, Some(u), done).contains_key(
                                        y,
                                    ));
                                    assert(contracting(g, x, attrs, ups1, Some(u), done)[y]
                                        == contracting_node(g, x, attrs, y, ups1, Some(u), done));
                                    assert(m@.contains_key(y));
                                    if y == d {
                                        let f = g[y].from;
                                        assert(replaced(replaced(f, x, u), x, u) =~= replaced(
                                            f,
                                            x,
                                            u,
                                        ));
                                    }
                                }
                                assert(graph_of(m@) =~~= contracting(
                                    g,
                                    x,
                                    attrs,
                                    ups1,
                                    Some(u),
                                    done1,
                                ));
                            }
                            j += 1;
                        }
                        assert(down@.take(j as int) =~= down@);
                        first = Some(u);
                    }
                } else {
                    proof {
                        assert(!(g.contains_key(u) && u != x));
                        assert forall|y: usize| g.contains_key(y) && y != x implies #[trigger] graph_of(
                            m@,
                        )[y] == contracting_node(g, x, attrs, y, ups1, first, o.to) by {
                            assert(contracting(g, x, attrs, ups, first, o.to).contains_key(y));
                            assert(contracting(g, x, attrs, ups, first, o.to)[y] == contracting_node(
                                g,
                                x,
                                attrs,
                                y,
                                ups,
                                first,
                                o.to,
                            ));
                            assert(m@.contains_key(y));
                        }
                        assert(graph_of(m@) =~~= contracting(g, x, attrs, ups1, first, o.to));
                    }
                }
                k += 1;
            }
            proof {
                assert(node.from@.take(k as int) =~= node.from@);
                assert forall|y: usize| g.contains_key(y) && y != x implies contracting_node(
                    g,
                    x,
                    attrs,
                    y,
                    o.from.to_set(),
                    first,
                    o.to,
                ) == contracted_node(g, x, attrs, y) by {}
                assert(graph_of(m@) =~~= contracted(g, x, attrs));
            }
        },
    }
}

/// What node `y` is while the self-join `j` is being taken out: the downstream nodes in
/// `down` have the upstream node and the alias already, and the upstream node has the
/// downstream nodes of `j` if `up_done`.
pub open spec fn eliding_node(
    g: Graph,
    j: usize,
    alias: Seq<char>,
    y: usize,
    down: Set<usize>,
    up_done: bool,
) -> NodeView {
    let o = g[j];
    let u = o.from[0];
    let n0 = g[y];
    let n1 = if down.contains(y) {
        NodeView { from: replaced(n0.from, j, u), join_alias: Some(alias), ..n0 }
    } else {
        n0
    };
    if up_done && y == u {
        NodeView { to: n1.to.remove(j).union(o.to), ..n1 }
    } else {
        n1
    }
}

/// The graph while the self-join `j` is being taken out.
pub open spec fn eliding(g: Graph, j: usize, alias: Seq<char>, down: Set<usize>, up_done: bool) -> Graph {
    Map::new(
        |y: usize| g.contains_key(y) && y != j,
        |y: usize| eliding_node(g, j, alias, y, down, up_done),
    )
}

/// Takes node `j` out if its first two inputs come from one node.
fn elide_self_join(m: &mut HashMap<usize, Node>, j: usize, alias: &str)
    ensures
        graph_of(final(m)@) == self_join_elided(graph_of(old(m)@), j, alias@),
{
    let ghost g = graph_of(m@);
    let ghost m0 = m@;
    let removed = m.remove(&j);
    match removed {
        None => {
            assert(graph_of(m@) =~= g);
        },
        Some(node) => {
            if node.from.len() < 2 || node.from[0] != node.from[1] {
                m.insert(j, node);
                assert(m@ =~= m0);
                return ;
            }
            let ghost o = g[j];
            assert(node@ == o);
            assert(is_self_join(g, j));
            let u = node.from[0];
            let down = ids_of(&node.to);
            let mut k: usize = 0;
            assert(down@.take(0) =~= Seq::empty());
            assert(down@.take(0).to_set() =~= Set::empty());
            assert(graph_of(m@) =~~= eliding(g, j, alias@, Set::empty(), false));
            while k < down.len()
                invariant
                    k <= down.len(),
                    is_self_join(g, j),
                    o == g[j],
                    u == o.from[0],
                    graph_of(m@) == eliding(g, j, alias@, down@.take(k as int).to_set(), false),
                decreases down.len() - k,
            {
                let d = down[k];
                let ghost done = down@.take(k as int).to_set();
                let found = m.remove(&d);
                if let Some(mut dn) = found {
                    dn.replace_from(j, u);
                    dn.join_alias = Some(alias.to_string());
                    m.insert(d, dn);
                }
                proof {
                    crate::plan::lemma_take_next_to_set(down@, k as int);
                    let done1 = down@.take(k + 1).to_set();
                    assert forall|y: usize| g.contains_key(y) && y != j implies #[trigger] graph_of(
                        m@,
                    )[y] =~~= eliding_node(g, j, alias@, y, done1, false) by {
                        assert(eliding(g, j, alias@, done, false).contains_key(y));
                        assert(eliding(g, j, alias@, done, false)[y] == eliding_node(
                            g,
                            j,
                            alias@,
                            y,
                            done,
                            false,
                        ));
                        assert(m@.contains_key(y));
                        if y == d {
                            let f = g[y].from;
                            assert(replaced(replaced(f, j, u), j, u) =~= replaced(f, j, u));
                        }
                    }
                    assert(graph_of(m@) =~~= eliding(g, j, alias@, done1, false));
                }
                k += 1;
            }
            assert(down@.take(k as int) =~= down@);
            let found = m.remove(&u);
            if let Some(mut up) = found {
                up.change_to_ids(&node.to, j);
                m.insert(u, up);
            }
            proof {
                assert forall|y: usize| g.contains_key(y) && y != j implies #[trigger] graph_of(
                    m@,
                )[y] =~~= self_join_elided_node(g, j, alias@, y) by {
                    assert(eliding(g, j, alias@, o.to, false).contains_key(y));
                    assert(eliding(g, j, alias@, o.to, false)[y] == eliding_node(
                        g,
                        j,
                        alias@,
                        y,
                        o.to,
                        false,
                    ));
                }
                assert(graph_of(m@) =~~= self_join_elided(g, j, alias@));
            }
        },
    }
}

/// Whether a pass acts on an operator at all.
pub open spec fn concerns(pass: Pass, op: OperatorView, to_one_target: bool) -> bool {
    match pass {
        Pass::MergeEndpoints => io_key(op, to_one_target) is Some,
        Pass::Fragmenters => op is FragmentOp,
        Pass::Projections => op is ProjectOp,
        Pass::SelfJoins => op is JoinOp,
    }
}

/// The nodes before `n` that a pass acts on, in order.
pub open spec fn indices_of(pass: Pass, nodes: Seq<NodeView>, to_one_target: bool, n: int) -> Seq<
    usize,
>
    decreases n,
{
    if n <= 0 {
        Seq::empty()
    } else {
        let before = indices_of(pass, nodes, to_one_target, n - 1);
        if concerns(pass, nodes[n - 1].operator, to_one_target) {
            before.push((n - 1) as usize)
        } else {
            before
        }
    }
}

/// The graph after a pass has gone over the nodes of `list`, in order.
pub open spec fn applied(
    pass: Pass,
    nodes: Seq<NodeView>,
    to_one_target: bool,
    g: Graph,
    list: Seq<usize>,
) -> Graph
    decreases list.len(),
{
    if list.len() == 0 {
        g
    } else {
        pass_step(
            pass,
            nodes,
            to_one_target,
            applied(pass, nodes, to_one_target, g, list.drop_last()),
            list.last() as int,
        )
    }
}

/// A pass over the nodes that concern it does what the pass over all nodes does.
pub proof fn lemma_applied_indices(
    pass: Pass,
    nodes: Seq<NodeView>,
    to_one_target: bool,
    g: Graph,
    n: int,
)
    requires
        0 <= n <= nodes.len(),
        n <= usize::MAX,
    ensures
        applied(pass, nodes, to_one_target, g, indices_of(pass, nodes, to_one_target, n))
            == after_pass(pass, nodes, to_one_target, g, n),
    decreases n,
{
    if n > 0 {
        lemma_applied_indices(pass, nodes, to_one_target, g, n - 1);
        let before = indices_of(pass, nodes, to_one_target, n - 1);
        if concerns(pass, nodes[n - 1].operator, to_one_target) {
            assert(before.push((n - 1) as usize).drop_last() =~= before);
        }
    }
}

/// The key under which an operator is grouped with its equals, if it is a source or a target.
fn key_of(op: &Operator, to_one_target: bool) -> (k: Option<u64>)
    ensures
        k == io_key(op@, to_one_target),
{
    match op {
        Operator::SourceOp { config } => Some(config.fingerprint),
        Operator::TargetOp { config } => Some(
            if to_one_target {
                0
            } else {
                config.fingerprint
            },
        ),
        _ => None,
    }
}

/// Puts node `id` into the group of the nodes whose configuration has the given hash; with
/// `constant_hash`, into the one group with the hash 0.
pub fn add_to_hash_map(
    io_hash_to_node_index: &mut HashMap<u64, Vec<usize>>,
    config_hash: u64,
    id: usize,
    constant_hash: bool,
)
    ensures
        ({
            let hash = if constant_hash {
                0u64
            } else {
                config_hash
            };
            let before = old(io_hash_to_node_index)@;
            let after = final(io_hash_to_node_index)@;
            &&& after.dom() == before.dom().insert(hash)
            &&& forall|h: u64| h != hash && before.contains_key(h) ==> after[h] == before[h]
            &&& after[hash]@ == if before.contains_key(hash) {
                before[hash]@.push(id)
            } else {
                seq![id]
            }
        }),
{
    let hash = if constant_hash {
        0
    } else {
        config_hash
    };
    let found = io_hash_to_node_index.remove(&hash);
    match found {
        Some(mut node_ids) => {
            node_ids.push(id);
            io_hash_to_node_index.insert(hash, node_ids);
        },
        None => {
            let mut node_ids: Vec<usize> = Vec::new();
            node_ids.push(id);
            io_hash_to_node_index.insert(hash, node_ids);
        },
    }
    assert(final(io_hash_to_node_index)@.dom() =~= old(io_hash_to_node_index)@.dom().insert(hash));
}

/// `first_keyed` gives the least node with the key, and none only if no node has it.
pub proof fn lemma_first_keyed(nodes: Seq<NodeView>, to_one_target: bool, key: u64, n: int)
    requires
        0 <= n <= nodes.len(),
        n <= usize::MAX,
    ensures
        match first_keyed(nodes, to_one_target, key, n) {
            Some(s) => s < n && io_key(nodes[s as int].operator, to_one_target) == Some(key)
                && forall|j: int|
                0 <= j < s ==> io_key(#[trigger] nodes[j].operator, to_one_target) != Some(key),
            None => forall|j: int|
                0 <= j < n ==> io_key(#[trigger] nodes[j].operator, to_one_target) != Some(key),
        },
    decreases n,
{
    if n > 0 {
        lemma_first_keyed(nodes, to_one_target, key, n - 1);
    }
}

/// The nodes before `n` that have the key `key`, in order.
pub open spec fn keyed(nodes: Seq<NodeView>, to_one_target: bool, key: u64, n: int) -> Seq<usize>
    decreases n,
{
    if n <= 0 || n > nodes.len() {
        Seq::empty()
    } else if io_key(nodes[n - 1].operator, to_one_target) == Some(key) {
        keyed(nodes, to_one_target, key, n - 1).push((n - 1) as usize)
    } else {
        keyed(nodes, to_one_target, key, n - 1)
    }
}

/// Where no node has the key, no node is listed under it.
pub proof fn lemma_keyed_none(nodes: Seq<NodeView>, to_one_target: bool, key: u64, n: int)
    requires
        first_keyed(nodes, to_one_target, key, n) is None,
    ensures
        keyed(nodes, to_one_target, key, n).len() == 0,
    decreases n,
{
    if 0 < n <= nodes.len() {
        lemma_keyed_none(nodes, to_one_target, key, n - 1);
    }
}

/// Whether the groups hold, under each key that a node before `n` has, the nodes before
/// `n` with that key, in order, and nothing under another key.
pub open spec fn groups_first(
    groups: Map<u64, Vec<usize>>,
    nodes: Seq<NodeView>,
    to_one_target: bool,
    n: int,
) -> bool {
    forall|key: u64|
        match #[trigger] first_keyed(nodes, to_one_target, key, n) {
            Some(s) => groups.contains_key(key) && groups[key]@ == keyed(
                nodes,
                to_one_target,
                key,
                n,
            ) && groups[key]@.len() > 0 && groups[key]@[0] == s,
            None => !groups.contains_key(key),
        }
}

/// The nodes that each pass acts on, found in one scan of the plan.
pub struct Indices {
    pub fragment_indices: Vec<usize>,
    pub projection_indices: Vec<usize>,
    pub join_indices: Vec<usize>,
    pub io_hash_to_node_index: HashMap<u64, Vec<usize>>,
}

/// Scans the nodes once and remembers the fragmenters, the projections and the joins, and
/// groups the sources and the targets by their keys.
pub fn classify(plan: &PlanGraph, to_one_target: bool) -> (r: Indices)
    ensures
        r.fragment_indices@ == indices_of(
            Pass::Fragmenters,
            nodes_of(plan),
            to_one_target,
            plan.nodes@.len() as int,
        ),
        r.projection_indices@ == indices_of(
            Pass::Projections,
            nodes_of(plan),
            to_one_target,
            plan.nodes@.len() as int,
        ),
        r.join_indices@ == indices_of(
            Pass::SelfJoins,
            nodes_of(plan),
            to_one_target,
            plan.nodes@.len() as int,
        ),
        groups_first(
            r.io_hash_to_node_index@,
            nodes_of(plan),
            to_one_target,
            plan.nodes@.len() as int,
        ),
{
    let mut r = Indices {
        fragment_indices: Vec::new(),
        projection_indices: Vec::new(),
        join_indices: Vec::new(),
        io_hash_to_node_index: HashMap::new(),
    };
    let ghost nodes = nodes_of(plan);
    let n = plan.nodes.len();
    let mut id: usize = 0;
    while id < n
        invariant
            id <= n,
            n == plan.nodes.len(),
            nodes == nodes_of(plan),
            r.fragment_indices@ == indices_of(Pass::Fragmenters, nodes, to_one_target, id as int),
            r.projection_indices@ == indices_of(Pass::Projections, nodes, to_one_target, id as int),
            r.join_indices@ == indices_of(Pass::SelfJoins, nodes, to_one_target, id as int),
            groups_first(r.io_hash_to_node_index@, nodes, to_one_target, id as int),
        decreases n - id,
    {
        let ghost groups = r.io_hash_to_node_index@;
        match &plan.nodes[id].operator {
            Operator::FragmentOp => {
                r.fragment_indices.push(id);
            },
            Operator::ProjectOp { .. } => {
                r.projection_indices.push(id);
            },
            Operator::SourceOp { config } => {
                add_to_hash_map(&mut r.io_hash_to_node_index, config.fingerprint, id, false);
            },
            Operator::TargetOp { config } => {
                add_to_hash_map(
                    &mut r.io_hash_to_node_index,
                    config.fingerprint,
                    id,
                    to_one_target,
                );
            },
            Operator::JoinOp { .. } => {
                r.join_indices.push(id);
            },
            _ => {},
        }
        proof {
            let after = r.io_hash_to_node_index@;
            assert(nodes[id as int] == plan.nodes@[id as int]@);
            assert forall|key: u64|
                match #[trigger] first_keyed(nodes, to_one_target, key, id + 1) {
                    Some(s) => after.contains_key(key) && after[key]@ == keyed(
                        nodes,
                        to_one_target,
                        key,
                        id + 1,
                    ) && after[key]@.len() > 0 && after[key]@[0] == s,
                    None => !after.contains_key(key),
                } by {
                let before = first_keyed(nodes, to_one_target, key, id as int);
                assert(match before {
                    Some(s) => groups.contains_key(key) && groups[key]@ == keyed(
                        nodes,
                        to_one_target,
                        key,
                        id as int,
                    ) && groups[key]@.len() > 0 && groups[key]@[0] == s,
                    None => !groups.contains_key(key),
                });
                if before is None {
                    lemma_keyed_none(nodes, to_one_target, key, id as int);
                    assert(keyed(nodes, to_one_target, key, id as int) =~= Seq::empty());
                }
                if io_key(nodes[id as int].operator, to_one_target) == Some(key) {
                    assert(after[key]@ =~= keyed(nodes, to_one_target, key, id + 1));
                }
            }
        }
        id += 1;
    }
    r
}

/// Merges every source or target into the first node that has the same key.
fn merge_endpoints(
    m: &mut HashMap<usize, Node>,
    plan: &PlanGraph,
    to_one_target: bool,
    groups: &HashMap<u64, Vec<usize>>,
)
    requires
        groups_first(groups@, nodes_of(plan), to_one_target, plan.nodes@.len() as int),
    ensures
        graph_of(final(m)@) == after_pass(
            Pass::MergeEndpoints,
            nodes_of(plan),
            to_one_target,
            graph_of(old(m)@),
            plan.nodes@.len() as int,
        ),
{
    let ghost nodes = nodes_of(plan);
    let ghost g0 = graph_of(m@);
    let n = plan.nodes.len();
    let mut i: usize = 0;
    while i < n
        invariant
            i <= n,
            n == plan.nodes.len(),
            nodes == nodes_of(plan),
            groups_first(groups@, nodes, to_one_target, n as int),
            graph_of(m@) == after_pass(Pass::MergeEndpoints, nodes, to_one_target, g0, i as int),
        decreases n - i,
    {
        assert(nodes[i as int] == plan.nodes@[i as int]@);
        if let Some(key) = key_of(&plan.nodes[i].operator, to_one_target) {
            proof {
                lemma_first_keyed(nodes, to_one_target, key, n as int);
                lemma_first_keyed(nodes, to_one_target, key, i as int);
                assert(first_keyed(nodes, to_one_target, key, n as int) is Some);
            }
            if let Some(members) = groups.get(&key) {
                let s = members[0];
                if s != i {
                    merge_into(m, i, s);
                } else {
                    assert(first_keyed(nodes, to_one_target, key, i as int) is None);
                }
            }
        }
        i += 1;
    }
}

/// Takes out the fragmenters, or the projections with their attributes handed upstream.
fn contract_all(
    m: &mut HashMap<usize, Node>,
    plan: &PlanGraph,
    to_one_target: bool,
    list: &Vec<usize>,
    projections: bool,
)
    requires
        forall|k: int| 0 <= k < list@.len() ==> list@[k] < plan.nodes@.len(),
    ensures
        graph_of(final(m)@) == applied(
            if projections {
                Pass::Projections
            } else {
                Pass::Fragmenters
            },
            nodes_of(plan),
            to_one_target,
            graph_of(old(m)@),
            list@,
        ),
{
    let ghost nodes = nodes_of(plan);
    let ghost g0 = graph_of(m@);
    let ghost pass = if projections {
        Pass::Projections
    } else {
        Pass::Fragmenters
    };
    let mut k: usize = 0;
    assert(list@.take(0) =~= Seq::empty());
    while k < list.len()
        invariant
            k <= list.len(),
            nodes == nodes_of(plan),
            pass == if projections {
                Pass::Projections
            } else {
                Pass::Fragmenters
            },
            forall|k: int| 0 <= k < list@.len() ==> list@[k] < plan.nodes@.len(),
            graph_of(m@) == applied(pass, nodes, to_one_target, g0, list@.take(k as int)),
        decreases list.len() - k,
    {
        let x = list[k];
        proof {
            assert(list@.take(k + 1).drop_last() =~= list@.take(k as int));
            assert(nodes[x as int] == plan.nodes@[x as int]@);
        }
        match &plan.nodes[x].operator {
            Operator::FragmentOp => {
                if !projections {
                    contract(m, x, &None);
                }
            },
            Operator::ProjectOp { config } => {
                if projections {
                    let attributes = Some(copy_strings(config.projection_attributes.as_slice()));
                    contract(m, x, &attributes);
                }
            },
            _ => {},
        }
        k += 1;
    }
    assert(list@.take(k as int) =~= list@);
}

/// Takes out the joins whose two inputs come from one node.
fn elide_self_joins(
    m: &mut HashMap<usize, Node>,
    plan: &PlanGraph,
    to_one_target: bool,
    list: &Vec<usize>,
)
    requires
        forall|k: int| 0 <= k < list@.len() ==> list@[k] < plan.nodes@.len(),
    ensures
        graph_of(final(m)@) == applied(
            Pass::SelfJoins,
            nodes_of(plan),
            to_one_target,
            graph_of(old(m)@),
            list@,
        ),
{
    let ghost nodes = nodes_of(plan);
    let ghost g0 = graph_of(m@);
    let mut k: usize = 0;
    assert(list@.take(0) =~= Seq::empty());
    while k < list.len()
        invariant
            k <= list.len(),
            nodes == nodes_of(plan),
            forall|k: int| 0 <= k < list@.len() ==> list@[k] < plan.nodes@.len(),
            graph_of(m@) == applied(Pass::SelfJoins, nodes, to_one_target, g0, list@.take(k as int)),
        decreases list.len() - k,
    {
        let j = list[k];
        proof {
            assert(list@.take(k + 1).drop_last() =~= list@.take(k as int));
            assert(nodes[j as int] == plan.nodes@[j as int]@);
        }
        match &plan.nodes[j].operator {
            Operator::JoinOp { config } => {
                elide_self_join(m, j, config.join_alias.as_str());
            },
            _ => {},
        }
        k += 1;
    }
    assert(list@.take(k as int) =~= list@);
}

/// The nodes that a pass acts on are nodes of the plan.
pub proof fn lemma_indices_in_range(pass: Pass, nodes: Seq<NodeView>, to_one_target: bool, n: int)
    requires
        0 <= n <= nodes.len(),
        n <= usize::MAX,
    ensures
        forall|k: int|
            0 <= k < indices_of(pass, nodes, to_one_target, n).len() ==> (#[trigger] indices_of(
                pass,
                nodes,
                to_one_target,
                n,
            )[k]) < n,
    decreases n,
{
    if n > 0 {
        lemma_indices_in_range(pass, nodes, to_one_target, n - 1);
        let before = indices_of(pass, nodes, to_one_target, n - 1);
        let all = indices_of(pass, nodes, to_one_target, n);
        assert forall|k: int| 0 <= k < all.len() implies (#[trigger] all[k]) < n by {
            if k < before.len() {
                assert(all[k] == before[k]);
            }
        }
    }
}

/// Rewrites a plan: loads the edges into the nodes, merges equal sources and equal
/// targets, and takes out the fragmenters, the projections and the self-joins.
pub fn rewrite(plan: &PlanGraph, to_one_target: bool) -> (node_map: HashMap<usize, Node>)
    requires
        edges_in_range(plan),
    ensures
        graph_of(node_map@) == rewritten(nodes_of(plan), plan.edges@, to_one_target),
        crate::plan_laws::no_fragmenter_or_projection(graph_of(node_map@)),
        crate::plan_laws::one_node_per_key(graph_of(node_map@), nodes_of(plan), to_one_target),
        crate::plan_laws::well_formed(nodes_of(plan), plan.edges@, to_one_target)
            ==> crate::plan_laws::consistent(graph_of(node_map@)),
{
    let ghost nodes = nodes_of(plan);
    let count = plan.nodes.len();
    let ghost n = count as int;
    let indices = classify(plan, to_one_target);
    let mut node_map = load(plan);
    proof {
        lemma_indices_in_range(Pass::Fragmenters, nodes, to_one_target, n);
        lemma_indices_in_range(Pass::Projections, nodes, to_one_target, n);
        lemma_indices_in_range(Pass::SelfJoins, nodes, to_one_target, n);
    }
    merge_endpoints(&mut node_map, plan, to_one_target, &indices.io_hash_to_node_index);
    let ghost g1 = graph_of(node_map@);
    contract_all(&mut node_map, plan, to_one_target, &indices.fragment_indices, false);
    let ghost g2 = graph_of(node_map@);
    contract_all(&mut node_map, plan, to_one_target, &indices.projection_indices, true);
    let ghost g3 = graph_of(node_map@);
    elide_self_joins(&mut node_map, plan, to_one_target, &indices.join_indices);
    proof {
        lemma_applied_indices(Pass::Fragmenters, nodes, to_one_target, g1, n);
        lemma_applied_indices(Pass::Projections, nodes, to_one_target, g2, n);
        lemma_applied_indices(Pass::SelfJoins, nodes, to_one_target, g3, n);
        crate::plan_laws::rewritten_has_no_fragmenter_or_projection(
            nodes,
            plan.edges@,
            to_one_target,
        );
        crate::plan_laws::rewritten_keeps_one_node_per_key(nodes, plan.edges@, to_one_target);
        if crate::plan_laws::well_formed(nodes, plan.edges@, to_one_target) {
            crate::plan_laws::rewritten_is_symmetric(nodes, plan.edges@, to_one_target);
        }
    }
    node_map
}

} // verus!
