use vstd::prelude::*;
use std::collections::HashSet;
use crate::schema::{Operator, OperatorView};
use crate::text::{copy_strings, texts};
use crate::util::opt_text;

verus! {

broadcast use vstd::std_specs::hash::group_hash_axioms;

/// A node of a plan: its operator, its edges, the attributes it needs from its source and
/// the alias of a join that was taken out in front of it.
pub struct Node {
    pub operator: Operator,
    /// Upstream nodes, in order: for a join, the left input then the right one.
    pub from: Vec<usize>,
    /// Downstream nodes.
    pub to: HashSet<usize>,
    /// The attribute names needed from the source, each once.
    pub attributes: Option<Vec<String>>,
    pub join_alias: Option<String>,
}

/// The mathematical content of a [`Node`].
#[verifier::ext_equal]
pub struct NodeView {
    pub operator: OperatorView,
    pub from: Seq<usize>,
    pub to: Set<usize>,
    pub attributes: Option<Seq<Seq<char>>>,
    pub join_alias: Option<Seq<char>>,
}

/// `s` with each `old_id` turned into `new_id`.
pub open spec fn replaced(s: Seq<usize>, old_id: usize, new_id: usize) -> Seq<usize> {
    Seq::new(s.len(), |i: int| if s[i] == old_id { new_id } else { s[i] })
}

/// `a` followed by the names of `b` that are not yet there, each once, in the order of `b`.
pub open spec fn appended_new(a: Seq<Seq<char>>, b: Seq<Seq<char>>) -> Seq<Seq<char>>
    decreases b.len(),
{
    if b.len() == 0 {
        a
    } else {
        let head = appended_new(a, b.drop_last());
        if head.contains(b.last()) {
            head
        } else {
            head.push(b.last())
        }
    }
}

/// The union of two optional attribute lists: where both are given, the names of the
/// first and then the new names of the second; else whichever is given.
pub open spec fn attribute_union(a: Option<Seq<Seq<char>>>, b: Option<Seq<Seq<char>>>) -> Option<
    Seq<Seq<char>>,
> {
    match (a, b) {
        (Some(x), Some(y)) => Some(appended_new(x, y)),
        (Some(x), None) => Some(x),
        (None, y) => y,
    }
}

/// The texts of an optional list of strings.
pub open spec fn opt_texts(a: Option<Vec<String>>) -> Option<Seq<Seq<char>>> {
    match a {
        Some(v) => Some(texts(v@)),
        None => None,
    }
}

/// The names appended by a union are those of either side.
pub proof fn lemma_appended_new_names(a: Seq<Seq<char>>, b: Seq<Seq<char>>)
    ensures
        appended_new(a, b).to_set() == a.to_set().union(b.to_set()),
        a.no_duplicates() ==> appended_new(a, b).no_duplicates(),
        a.is_prefix_of(appended_new(a, b)),
    decreases b.len(),
{
    if b.len() == 0 {
        assert(b.to_set() =~= Set::empty());
        assert(a.to_set().union(b.to_set()) =~= a.to_set());
    } else {
        let head = appended_new(a, b.drop_last());
        lemma_appended_new_names(a, b.drop_last());
        let r = appended_new(a, b);
        assert forall|x: Seq<char>| r.to_set().contains(x) <==> a.to_set().union(
            b.to_set(),
        ).contains(x) by {
            if r.contains(x) {
                let j = choose|j: int| 0 <= j < r.len() && r[j] == x;
                if j < head.len() {
                    assert(head.contains(x));
                    assert(head.to_set().contains(x));
                    if b.drop_last().to_set().contains(x) {
                        let k = choose|k: int| 0 <= k < b.drop_last().len() && b.drop_last()[k] == x;
                        assert(b[k] == x);
                    }
                } else {
                    assert(x == b.last());
                    assert(b[b.len() - 1] == x);
                }
            }
            if a.contains(x) {
                assert(head.to_set().contains(x));
                let j = choose|j: int| 0 <= j < head.len() && head[j] == x;
                assert(r[j] == x);
            }
            if b.contains(x) {
                let k = choose|k: int| 0 <= k < b.len() && b[k] == x;
                if k < b.len() - 1 {
                    assert(b.drop_last()[k] == x);
                    assert(b.drop_last().to_set().contains(x));
                    assert(head.to_set().contains(x));
                    let j = choose|j: int| 0 <= j < head.len() && head[j] == x;
                    assert(r[j] == x);
                } else if head.contains(x) {
                    let j = choose|j: int| 0 <= j < head.len() && head[j] == x;
                    assert(r[j] == x);
                } else {
                    assert(r[r.len() - 1] == x);
                }
            }
        }
        assert(r.to_set() =~= a.to_set().union(b.to_set()));
    }
}

impl Node {
    pub open spec fn view(&self) -> NodeView {
        NodeView {
            operator: self.operator@,
            from: self.from@,
            to: self.to@,
            attributes: opt_texts(self.attributes),
            join_alias: opt_text(self.join_alias),
        }
    }

    /// Adds an upstream node at the end.
    pub fn add_from(&mut self, id: usize)
        ensures
            final(self)@ == (NodeView { from: old(self)@.from.push(id), ..old(self)@ }),
    {
        self.from.push(id);
    }

    /// Turns every upstream `old_id` into `new_id`.
    pub fn replace_from(&mut self, old_id: usize, new_id: usize)
        ensures
            final(self)@ == (NodeView {
                from: replaced(old(self)@.from, old_id, new_id),
                ..old(self)@
            }),
    {
        let mut i: usize = 0;
        let n = self.from.len();
        while i < n
            invariant
                i <= n,
                n == self.from.len(),
                n == old(self).from.len(),
                self.operator == old(self).operator,
                self.to == old(self).to,
                self.attributes == old(self).attributes,
                self.join_alias == old(self).join_alias,
                forall|j: int| 0 <= j < i ==> self.from@[j] == replaced(old(self).from@, old_id, new_id)[j],
                forall|j: int| i <= j < n ==> self.from@[j] == old(self).from@[j],
            decreases n - i,
        {
            if self.from[i] == old_id {
                self.from[i] = new_id;
            }
            i += 1;
        }
        assert(self.from@ =~= replaced(old(self).from@, old_id, new_id));
    }

    /// Adds upstream nodes at the end, in order.
    pub fn add_all_from(&mut self, ids: &[usize])
        ensures
            final(self)@ == (NodeView { from: old(self)@.from + ids@, ..old(self)@ }),
    {
        let mut i: usize = 0;
        while i < ids.len()
            invariant
                i <= ids.len(),
                self.operator == old(self).operator,
                self.to == old(self).to,
                self.attributes == old(self).attributes,
                self.join_alias == old(self).join_alias,
                self.from@ == old(self).from@ + ids@.take(i as int),
            decreases ids.len() - i,
        {
            self.from.push(ids[i]);
            assert(ids@.take(i + 1) =~= ids@.take(i as int).push(ids@[i as int]));
            assert(self.from@ =~= old(self).from@ + ids@.take(i + 1));
            i += 1;
        }
        assert(ids@.take(i as int) =~= ids@);
    }

    /// Adds a downstream node.
    pub fn add_to(&mut self, id: usize)
        ensures
            final(self)@ == (NodeView { to: old(self)@.to.insert(id), ..old(self)@ }),
    {
        self.to.insert(id);
    }

    /// Adds downstream nodes.
    pub fn add_all_to(&mut self, ids: &HashSet<usize>)
        ensures
            final(self)@ == (NodeView { to: old(self)@.to.union(ids@), ..old(self)@ }),
    {
        for id in it: ids.iter()
            invariant
                self.operator == old(self).operator,
                self.from == old(self).from,
                self.attributes == old(self).attributes,
                self.join_alias == old(self).join_alias,
                it.seq().unref().to_set() == ids@,
                self.to@ == old(self).to@.union(it.seq().unref().take(it.index() as int).to_set()),
                it.index() == it.seq().len() ==> self.to@ == old(self).to@.union(ids@),
        {
            self.to.insert(*id);
            proof {
                let k = it.index() as int;
                let s = it.seq().unref();
                lemma_take_next_to_set(s, k);
                assert(self.to@ =~= old(self).to@.union(s.take(k + 1).to_set()));
                assert(s.take(s.len() as int) =~= s);
            }
        }
    }

    /// Takes `old_id` out of the downstream nodes and puts `new_id` in.
    pub fn replace_to(&mut self, old_id: usize, new_id: usize)
        ensures
            final(self)@ == (NodeView {
                to: old(self)@.to.remove(old_id).insert(new_id),
                ..old(self)@
            }),
    {
        self.to.remove(&old_id);
        self.to.insert(new_id);
    }

    /// Takes `id_to_remove` out of the downstream nodes and adds `ids_to_add`.
    pub fn change_to_ids(&mut self, ids_to_add: &HashSet<usize>, id_to_remove: usize)
        ensures
            final(self)@ == (NodeView {
                to: old(self)@.to.remove(id_to_remove).union(ids_to_add@),
                ..old(self)@
            }),
    {
        self.to.remove(&id_to_remove);
        self.add_all_to(ids_to_add);
    }

    /// Unites the node's attributes with `attributes`.
    pub fn add_attributes(&mut self, attributes: Option<Vec<String>>)
        ensures
            final(self)@ == (NodeView {
                attributes: attribute_union(old(self)@.attributes, opt_texts(attributes)),
                ..old(self)@
            }),
    {
        match attributes {
            None => {},
            Some(new_names) => {
                let mine = self.attributes.take();
                match mine {
                    None => {
                        self.attributes = Some(new_names);
                    },
                    Some(mut names) => {
                        let ghost start = texts(names@);
                        let ghost added = texts(new_names@);
                        let mut i: usize = 0;
                        assert(added.take(0) =~= Seq::empty());
                        while i < new_names.len()
                            invariant
                                i <= new_names.len(),
                                added == texts(new_names@),
                                texts(names@) == appended_new(start, added.take(i as int)),
                            decreases new_names.len() - i,
                        {
                            proof {
                                assert(added.take(i + 1).drop_last() =~= added.take(i as int));
                                crate::text::lemma_position(texts(names@), new_names@[i as int]@);
                            }
                            let found = crate::text::find_text(
                                names.as_slice(),
                                new_names[i].as_str(),
                            );
                            if found.is_none() {
                                names.push(new_names[i].clone());
                                assert(texts(names@) =~= appended_new(start, added.take(i as int)).push(
                                    added[i as int],
                                ));
                            } else {
                                let ghost k = found->Some_0 as int;
                                assert(added[i as int] == new_names@[i as int]@);
                                assert(texts(names@)[k] == added[i as int]);
                            }
                            i += 1;
                        }
                        assert(added.take(i as int) =~= added);
                        self.attributes = Some(names);
                    },
                }
            },
        }
    }

    /// A copy with the same content.
    pub fn duplicate(&self) -> (r: Node)
        ensures
            r@ == self@,
    {
        let mut r = Node {
            operator: self.operator.duplicate(),
            from: Vec::new(),
            to: HashSet::new(),
            attributes: match &self.attributes {
                Some(names) => Some(copy_strings(names.as_slice())),
                None => None,
            },
            join_alias: match &self.join_alias {
                Some(alias) => Some(alias.clone()),
                None => None,
            },
        };
        r.add_all_from(self.from.as_slice());
        r.add_all_to(&self.to);
        assert(r@.from =~= self@.from);
        assert(r@.to =~= self@.to);
        r
    }
}

/// A plan as it is loaded: the nodes, addressed by their place in the list, and the edges
/// from one node to another.
pub struct PlanGraph {
    pub nodes: Vec<Node>,
    pub edges: Vec<(usize, usize)>,
}

/// One more element of a sequence adds that element to the set of the elements taken.
pub proof fn lemma_take_next_to_set<T>(s: Seq<T>, k: int)
    requires
        0 <= k < s.len(),
    ensures
        s.take(k + 1).to_set() == s.take(k).to_set().insert(s[k]),
{
    let a = s.take(k + 1);
    let b = s.take(k);
    assert forall|x: T| a.to_set().contains(x) <==> b.to_set().insert(s[k]).contains(x) by {
        if a.contains(x) {
            let j = choose|j: int| 0 <= j < a.len() && a[j] == x;
            if j < k {
                assert(b[j] == x);
            }
        }
        if b.contains(x) {
            let j = choose|j: int| 0 <= j < b.len() && b[j] == x;
            assert(a[j] == x);
        }
        if x == s[k] {
            assert(a[k] == x);
        }
    }
    assert(a.to_set() =~= b.to_set().insert(s[k]));
}

/// Names that are all there already add nothing.
pub proof fn lemma_appended_known(c: Seq<Seq<char>>, b: Seq<Seq<char>>)
    requires
        forall|k: int| 0 <= k < b.len() ==> c.contains(b[k]),
    ensures
        appended_new(c, b) == c,
    decreases b.len(),
{
    if b.len() > 0 {
        assert forall|k: int| 0 <= k < b.drop_last().len() implies c.contains(b.drop_last()[k]) by {
            assert(b.drop_last()[k] == b[k]);
        }
        lemma_appended_known(c, b.drop_last());
        assert(c.contains(b[b.len() - 1]));
    }
}

/// Uniting with the same attributes a second time changes nothing.
pub proof fn lemma_union_again(a: Option<Seq<Seq<char>>>, b: Option<Seq<Seq<char>>>)
    ensures
        attribute_union(attribute_union(a, b), b) == attribute_union(a, b),
{
    match (a, b) {
        (Some(x), Some(y)) => {
            let c = appended_new(x, y);
            lemma_appended_new_names(x, y);
            assert forall|k: int| 0 <= k < y.len() implies c.contains(y[k]) by {
                assert(y.contains(y[k]));
                assert(y.to_set().contains(y[k]));
                assert(c.to_set().contains(y[k]));
            }
            lemma_appended_known(c, y);
        },
        (None, Some(y)) => {
            assert forall|k: int| 0 <= k < y.len() implies y.contains(y[k]) by {}
            lemma_appended_known(y, y);
        },
        _ => {},
    }
}

} // verus!
