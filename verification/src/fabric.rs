use vstd::prelude::*;
use std::collections::HashMap;
use crate::plan::Node;
use crate::plan_rewriter::{graph_of, Graph};

verus! {

broadcast use vstd::std_specs::hash::group_hash_axioms;

/// How often `u` stands in `from`.
pub open spec fn count_in(from: Seq<usize>, u: usize) -> nat
    decreases from.len(),
{
    if from.len() == 0 {
        0
    } else if from.last() == u {
        count_in(from.drop_last(), u) + 1
    } else {
        count_in(from.drop_last(), u)
    }
}

/// The identifier `v`, `count` times.
pub open spec fn copies(v: usize, count: nat) -> Seq<usize> {
    Seq::new(count, |i: int| v)
}

/// The nodes before `n` to which node `u` sends, in order, each as often as it names `u`
/// among its upstream nodes.
pub open spec fn receivers_of(g: Graph, u: usize, n: int) -> Seq<usize>
    decreases n,
{
    if n <= 0 {
        Seq::empty()
    } else {
        let before = receivers_of(g, u, n - 1);
        let v = (n - 1) as usize;
        if g.contains_key(v) {
            before + copies(v, count_in(g[v].from, u))
        } else {
            before
        }
    }
}

/// Tells whether a node gets a channel of its own to receive from: it does if it has an
/// upstream node.
pub fn has_receiver(node: &Node) -> (r: bool)
    ensures
        r == (node@.from.len() > 0),
{
    node.from.len() > 0
}

/// The nodes to whose channels node `u` sends: for each node of the plan, in the order
/// of the identifiers below `n`, one sender for each time it names `u` among its upstream
/// nodes.
pub fn senders_for(node_map: &HashMap<usize, Node>, u: usize, n: usize) -> (r: Vec<usize>)
    ensures
        r@ == receivers_of(graph_of(node_map@), u, n as int),
{
    let ghost g = graph_of(node_map@);
    let mut out: Vec<usize> = Vec::new();
    let mut v: usize = 0;
    while v < n
        invariant
            v <= n,
            g == graph_of(node_map@),
            out@ == receivers_of(g, u, v as int),
        decreases n - v,
    {
        if let Some(node) = node_map.get(&v) {
            assert(g.contains_key(v) && g[v] == node@);
            let ghost before = out@;
            let mut k: usize = 0;
            assert(node.from@.take(0) =~= Seq::empty());
            assert(out@ =~= before + copies(v, 0));
            while k < node.from.len()
                invariant
                    k <= node.from.len(),
                    out@ == before + copies(v, count_in(node.from@.take(k as int), u)),
                decreases node.from.len() - k,
            {
                proof {
                    assert(node.from@.take(k + 1).drop_last() =~= node.from@.take(k as int));
                }
                let ghost c = count_in(node.from@.take(k as int), u);
                if node.from[k] == u {
                    out.push(v);
                    assert(out@ =~= before + copies(v, c + 1));
                }
                k += 1;
            }
            assert(node.from@.take(k as int) =~= node.from@);
        } else {
            assert(!g.contains_key(v));
        }
        v += 1;
    }
    out
}

} // verus!
