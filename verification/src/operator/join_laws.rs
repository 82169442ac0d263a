use vstd::prelude::*;
use vstd::multiset::Multiset;
use vstd::seq_lib::lemma_multiset_commutative;
use crate::operator::join::{
    col, keys_match, matching, merged, row, step, JoinView, SideView, Tuple,
};
use crate::text::payload;

verus! {

broadcast use vstd::multiset::group_multiset_axioms;

/// The join after it has taken the tuples of `events`, in order.
pub open spec fn after(v: JoinView, events: Seq<Tuple>) -> JoinView
    decreases events.len(),
{
    if events.len() == 0 {
        v
    } else {
        step(after(v, events.drop_last()), events.last()).state
    }
}

/// The joined tuples that the join has sent while it took the tuples of `events`.
pub open spec fn data_sent(v: JoinView, events: Seq<Tuple>) -> Seq<Tuple>
    decreases events.len(),
{
    if events.len() == 0 {
        Seq::empty()
    } else {
        data_sent(v, events.drop_last()) + step(after(v, events.drop_last()), events.last()).data
    }
}

/// The tuples of every pair of one of the first `n` left records and a right record that
/// join, each pair once.
pub open spec fn all_pairs(v: JoinView, n: int) -> Multiset<Tuple>
    decreases n,
{
    if n <= 0 || n > v.left.records.len() {
        Multiset::empty()
    } else {
        all_pairs(v, n - 1).add(row(v, v.left.records[n - 1]).to_multiset())
    }
}

/// Whether no side has a record without having its header.
pub open spec fn tidy(v: JoinView) -> bool {
    &&& v.left.header is None ==> v.left.records.len() == 0
    &&& v.right.header is None ==> v.right.records.len() == 0
}

/// Whether the join has seen nothing yet.
pub open spec fn fresh(v: JoinView) -> bool {
    &&& v.left.header is None
    &&& v.left.records.len() == 0
    &&& v.right.header is None
    &&& v.right.records.len() == 0
}

/// The tuples of `events` that come from the left input, in order.
pub open spec fn left_part(v: JoinView, events: Seq<Tuple>) -> Seq<Tuple>
    decreases events.len(),
{
    if events.len() == 0 {
        Seq::empty()
    } else {
        let t = events.last();
        if t.len() > 0 && t[0] == v.left_id {
            left_part(v, events.drop_last()).push(t)
        } else {
            left_part(v, events.drop_last())
        }
    }
}

/// The tuples of `events` that come from the right input, in order.
pub open spec fn right_part(v: JoinView, events: Seq<Tuple>) -> Seq<Tuple>
    decreases events.len(),
{
    if events.len() == 0 {
        Seq::empty()
    } else {
        let t = events.last();
        if t.len() > 0 && t[0] != v.left_id && t[0] == v.right_id {
            right_part(v, events.drop_last()).push(t)
        } else {
            right_part(v, events.drop_last())
        }
    }
}

/// A side after it has taken `tuples`: the first one as its header, if it had none, and
/// every other one as a record.
pub open spec fn side_after(side: SideView, tuples: Seq<Tuple>) -> SideView
    decreases tuples.len(),
{
    if tuples.len() == 0 {
        side
    } else {
        let before = side_after(side, tuples.drop_last());
        match before.header {
            None => SideView { header: Some(payload(tuples.last())), ..before },
            Some(_) => SideView { records: before.records.push(payload(tuples.last())), ..before },
        }
    }
}

/// Two keys match in either order.
pub proof fn lemma_keys_match_symmetric(a: Seq<Option<Seq<char>>>, b: Seq<Option<Seq<char>>>)
    ensures
        keys_match(a, b) == keys_match(b, a),
{
    if keys_match(a, b) {
        assert forall|i: int| 0 <= i < b.len() implies (#[trigger] b[i]) is Some && b[i]
            == a[i] by {
            assert(a[i] is Some && a[i] == b[i]);
        }
    }
    if keys_match(b, a) {
        assert forall|i: int| 0 <= i < a.len() implies (#[trigger] a[i]) is Some && a[i]
            == b[i] by {
            assert(b[i] is Some && b[i] == a[i]);
        }
    }
}

/// Which records match depends on the records looked at only.
pub proof fn lemma_matching_prefix(
    a: SideView,
    b: SideView,
    n: int,
    probe: Seq<Option<Seq<char>>>,
)
    requires
        a.attrs == b.attrs,
        a.header == b.header,
        0 <= n <= a.records.len(),
        n <= b.records.len(),
        forall|i: int| 0 <= i < n ==> a.records[i] == b.records[i],
    ensures
        matching(a, n, probe) == matching(b, n, probe),
    decreases n,
{
    if n > 0 {
        lemma_matching_prefix(a, b, n - 1, probe);
    }
}

/// The places that `matching` gives are places of records.
pub proof fn lemma_matching_in_range(side: SideView, n: int, probe: Seq<Option<Seq<char>>>)
    requires
        0 <= n <= side.records.len(),
    ensures
        forall|k: int|
            0 <= k < matching(side, n, probe).len() ==> 0 <= (#[trigger] matching(
                side,
                n,
                probe,
            )[k]) < n,
    decreases n,
{
    if n > 0 {
        lemma_matching_in_range(side, n - 1, probe);
        let before = matching(side, n - 1, probe);
        let all = matching(side, n, probe);
        assert forall|k: int| 0 <= k < all.len() implies 0 <= (#[trigger] all[k]) < n by {
            if k < before.len() {
                assert(all[k] == before[k]);
            }
        }
    }
}

/// The pairs of the first left records do not depend on the left records after them.
pub proof fn lemma_pairs_prefix(v: JoinView, w: JoinView, n: int)
    requires
        v.id == w.id,
        v.right == w.right,
        v.left.attrs == w.left.attrs,
        v.left.header == w.left.header,
        0 <= n <= v.left.records.len(),
        n <= w.left.records.len(),
        forall|i: int| 0 <= i < n ==> v.left.records[i] == w.left.records[i],
    ensures
        all_pairs(v, n) == all_pairs(w, n),
    decreases n,
{
    if n > 0 {
        lemma_pairs_prefix(v, w, n - 1);
        assert(row(v, v.left.records[n - 1]) == row(w, w.left.records[n - 1]));
    }
}

/// Without right records there are no pairs.
pub proof fn lemma_pairs_without_right(v: JoinView, n: int)
    requires
        v.right.records.len() == 0,
    ensures
        all_pairs(v, n) == Multiset::<Tuple>::empty(),
    decreases n,
{
    if 0 < n <= v.left.records.len() {
        lemma_pairs_without_right(v, n - 1);
        let r = row(v, v.left.records[n - 1]);
        assert(r =~= Seq::empty());
        assert(r.to_multiset() =~= Multiset::<Tuple>::empty()) by {
            r.to_multiset_ensures();
        }
        assert(all_pairs(v, n) =~= Multiset::<Tuple>::empty());
    }
}

/// A new right record adds the pairs that it makes with the left records.
pub proof fn lemma_pairs_new_right(v: JoinView, w: JoinView, r: Tuple, n: int)
    requires
        0 <= n <= v.left.records.len(),
        w == (JoinView {
            right: SideView { records: v.right.records.push(r), ..v.right },
            ..v
        }),
    ensures
        all_pairs(w, n) == all_pairs(v, n).add(col(v, r, n).to_multiset()),
    decreases n,
{
    if n == 0 {
        let c = col(v, r, 0);
        assert(c =~= Seq::empty());
        c.to_multiset_ensures();
        assert(c.to_multiset() =~= Multiset::<Tuple>::empty());
        assert(all_pairs(w, 0) =~= all_pairs(v, 0).add(c.to_multiset()));
    } else {
        lemma_pairs_new_right(v, w, r, n - 1);
        let l = v.left.records[n - 1];
        let len = v.right.records.len() as int;
        let probe = v.left.key_of(l);
        lemma_matching_prefix(v.right, w.right, len, probe);
        lemma_matching_in_range(v.right, len, probe);
        lemma_matching_in_range(v.left, n - 1, v.right.key_of(r));
        lemma_keys_match_symmetric(probe, v.right.key_of(r));
        let hit = keys_match(probe, v.right.key_of(r));
        let extra: Seq<Tuple> = if hit {
            seq![merged(v.id, l, r)]
        } else {
            Seq::empty()
        };
        assert(w.right.key_of(r) == v.right.key_of(r));
        assert(w.right.records[len] == r);
        assert(row(w, l) =~= row(v, l) + extra);
        assert(col(v, r, n) =~= col(v, r, n - 1) + extra);
        lemma_multiset_commutative(row(v, l), extra);
        lemma_multiset_commutative(col(v, r, n - 1), extra);
        assert(all_pairs(w, n) =~= all_pairs(v, n).add(col(v, r, n).to_multiset()));
    }
}

/// A tuple adds to the pairs what the join sends for it.
pub proof fn lemma_step_pairs(v: JoinView, t: Tuple)
    requires
        tidy(v),
    ensures
        tidy(step(v, t).state),
        all_pairs(step(v, t).state, step(v, t).state.left.records.len() as int) == all_pairs(
            v,
            v.left.records.len() as int,
        ).add(step(v, t).data.to_multiset()),
{
    let s = step(v, t);
    let w = s.state;
    let n = v.left.records.len() as int;
    let none = Seq::<Tuple>::empty();
    none.to_multiset_ensures();
    assert(none.to_multiset() =~= Multiset::<Tuple>::empty());
    if t.len() == 0 {
        assert(all_pairs(w, n) =~= all_pairs(v, n).add(s.data.to_multiset()));
    } else if t[0] == v.left_id {
        if v.left.header is None {
            assert(all_pairs(w, 0) =~= all_pairs(v, 0).add(s.data.to_multiset()));
        } else {
            lemma_pairs_prefix(v, w, n);
            assert(w.left.records[n] == payload(t));
            assert(row(w, payload(t)) == row(v, payload(t)));
        }
    } else if t[0] == v.right_id {
        if v.right.header is None {
            lemma_pairs_without_right(v, n);
            lemma_pairs_without_right(w, n);
            assert(all_pairs(w, n) =~= all_pairs(v, n).add(s.data.to_multiset()));
        } else {
            lemma_pairs_new_right(v, w, payload(t), n);
        }
    } else {
        assert(all_pairs(w, n) =~= all_pairs(v, n).add(s.data.to_multiset()));
    }
}

/// What a fresh join has sent is the tuples of every pair of a left record and a right
/// record that join, each pair once, whatever the order in which the records came.
pub proof fn lemma_sent_is_all_pairs(v: JoinView, events: Seq<Tuple>)
    requires
        fresh(v),
    ensures
        tidy(after(v, events)),
        data_sent(v, events).to_multiset() == all_pairs(
            after(v, events),
            after(v, events).left.records.len() as int,
        ),
    decreases events.len(),
{
    if events.len() == 0 {
        let none = Seq::<Tuple>::empty();
        none.to_multiset_ensures();
        assert(none.to_multiset() =~= Multiset::<Tuple>::empty());
    } else {
        lemma_sent_is_all_pairs(v, events.drop_last());
        let before = after(v, events.drop_last());
        lemma_step_pairs(before, events.last());
        lemma_multiset_commutative(
            data_sent(v, events.drop_last()),
            step(before, events.last()).data,
        );
    }
}

/// What each side has seen depends only on the tuples of that side, in their order.
pub proof fn lemma_sides_by_parts(v: JoinView, events: Seq<Tuple>)
    ensures
        after(v, events).left == side_after(v.left, left_part(v, events)),
        after(v, events).right == side_after(v.right, right_part(v, events)),
        after(v, events).id == v.id,
        after(v, events).left_id == v.left_id,
        after(v, events).right_id == v.right_id,
        after(v, events).prefix == v.prefix,
    decreases events.len(),
{
    if events.len() > 0 {
        lemma_sides_by_parts(v, events.drop_last());
        let t = events.last();
        let lp = left_part(v, events.drop_last());
        let rp = right_part(v, events.drop_last());
        if t.len() > 0 && t[0] == v.left_id {
            assert(lp.push(t).drop_last() =~= lp);
        } else if t.len() > 0 && t[0] == v.right_id {
            assert(rp.push(t).drop_last() =~= rp);
        }
    }
}

/// Join symmetry: the joined tuples that a fresh join sends are the same, each as often,
/// for any two orders of arrival in which each side sends the same tuples in the same
/// order.
pub proof fn join_output_is_independent_of_interleaving(
    v: JoinView,
    first: Seq<Tuple>,
    second: Seq<Tuple>,
)
    requires
        fresh(v),
        left_part(v, first) == left_part(v, second),
        right_part(v, first) == right_part(v, second),
    ensures
        data_sent(v, first).to_multiset() == data_sent(v, second).to_multiset(),
{
    lemma_sent_is_all_pairs(v, first);
    lemma_sent_is_all_pairs(v, second);
    lemma_sides_by_parts(v, first);
    lemma_sides_by_parts(v, second);
    let a = after(v, first);
    let b = after(v, second);
    assert(a == b);
}

} // verus!
