use vstd::prelude::*;
use vstd::string::StringExecFns;
use std::collections::HashMap;
use crate::text_set::{hash_text, text_hash};
use crate::schema::{pair_texts, Join, JoinType};
use crate::text::{
    copy_strings, decimal, decimal_string, find_text, payload, payload_of, places, position,
    same_text, texts,
};

verus! {

/// A tuple as the operators pass it on: a list of texts.
pub type Tuple = Seq<Seq<char>>;

/// The join key of a record: for each join attribute, the value of the first column of the
/// header that has its name, or nothing if no column has it or the record is too short.
pub open spec fn key(attrs: Seq<Seq<char>>, header: Tuple, record: Tuple) -> Seq<Option<Seq<char>>> {
    Seq::new(
        attrs.len(),
        |i: int|
            match position(header, attrs[i]) {
                Some(p) => if p < record.len() {
                    Some(record[p])
                } else {
                    None
                },
                None => None,
            },
    )
}

/// Whether two join keys match: every value is there and equals its counterpart.
pub open spec fn keys_match(a: Seq<Option<Seq<char>>>, b: Seq<Option<Seq<char>>>) -> bool {
    a.len() == b.len() && forall|i: int| 0 <= i < a.len() ==> (#[trigger] a[i]) is Some && a[i] == b[i]
}

/// What one side of a join has seen: its header, once it has come, and its records since.
pub struct SideView {
    pub attrs: Seq<Seq<char>>,
    pub header: Option<Tuple>,
    pub records: Seq<Tuple>,
}

impl SideView {
    /// The header, or no names while it has not come.
    pub open spec fn names(self) -> Tuple {
        match self.header {
            Some(h) => h,
            None => Seq::empty(),
        }
    }

    /// The join key of a record of this side.
    pub open spec fn key_of(self, record: Tuple) -> Seq<Option<Seq<char>>> {
        key(self.attrs, self.names(), record)
    }
}

/// The records of `side`, in order, that join with a record with the key `probe`.
pub open spec fn matching(side: SideView, n: int, probe: Seq<Option<Seq<char>>>) -> Seq<int>
    decreases n,
{
    if n <= 0 || n > side.records.len() {
        Seq::empty()
    } else if keys_match(probe, side.key_of(side.records[n - 1])) {
        matching(side, n - 1, probe).push(n - 1)
    } else {
        matching(side, n - 1, probe)
    }
}

/// One side of a join as it runs: the join attributes of the side, the header with the
/// place of each join attribute in it, the records that have come, and an index that
/// gives, for the hash of a join key, the places of the records that have a key with that
/// hash.
pub struct JoinData {
    attrs: Vec<String>,
    header: Option<Vec<String>>,
    join_attr_positions: Vec<Option<usize>>,
    data: Vec<Vec<String>>,
    join_attr_indices: HashMap<u64, Vec<usize>>,
}

/// Whether a key has a value for every join attribute.
pub open spec fn complete(k: Seq<Option<Seq<char>>>) -> bool {
    forall|i: int| 0 <= i < k.len() ==> (#[trigger] k[i]) is Some
}

/// The hash of a key: the same number for the same key, always.
pub open spec fn key_hash(k: Seq<Option<Seq<char>>>) -> u64
    decreases k.len(),
{
    if k.len() == 0 {
        7
    } else {
        key_hash(k.drop_last()).wrapping_mul(31).wrapping_add(
            match k.last() {
                Some(v) => text_hash(v),
                None => 0,
            },
        )
    }
}

/// The places of the first `n` records of `side` that have a complete key with the hash
/// `h`, in order.
pub open spec fn bucket(side: SideView, h: u64, n: int) -> Seq<int>
    decreases n,
{
    if n <= 0 || n > side.records.len() {
        Seq::empty()
    } else {
        let k = side.key_of(side.records[n - 1]);
        if complete(k) && key_hash(k) == h {
            bucket(side, h, n - 1).push(n - 1)
        } else {
            bucket(side, h, n - 1)
        }
    }
}

/// The places of `list`, in order, whose records join with a record with the key `probe`.
pub open spec fn filtered(side: SideView, list: Seq<int>, probe: Seq<Option<Seq<char>>>) -> Seq<
    int,
>
    decreases list.len(),
{
    if list.len() == 0 {
        Seq::empty()
    } else if 0 <= list.last() < side.records.len() && keys_match(
        probe,
        side.key_of(side.records[list.last()]),
    ) {
        filtered(side, list.drop_last(), probe).push(list.last())
    } else {
        filtered(side, list.drop_last(), probe)
    }
}

/// The places in a bucket are places of records.
pub proof fn lemma_bucket_in_range(side: SideView, h: u64, n: int)
    requires
        0 <= n <= side.records.len(),
    ensures
        forall|j: int| 0 <= j < bucket(side, h, n).len() ==> 0 <= #[trigger] bucket(side, h, n)[j] < n,
    decreases n,
{
    if n > 0 {
        lemma_bucket_in_range(side, h, n - 1);
        let before = bucket(side, h, n - 1);
        let all = bucket(side, h, n);
        assert forall|j: int| 0 <= j < all.len() implies 0 <= #[trigger] all[j] < n by {
            if j < before.len() {
                assert(all[j] == before[j]);
            }
        }
    }
}

/// A bucket depends on the records looked at only.
pub proof fn lemma_bucket_prefix(a: SideView, b: SideView, h: u64, n: int)
    requires
        a.attrs == b.attrs,
        a.header == b.header,
        0 <= n <= a.records.len(),
        n <= b.records.len(),
        forall|i: int| 0 <= i < n ==> a.records[i] == b.records[i],
    ensures
        bucket(a, h, n) == bucket(b, h, n),
    decreases n,
{
    if n > 0 {
        lemma_bucket_prefix(a, b, h, n - 1);
    }
}

/// Nothing joins with a key that lacks a value.
pub proof fn lemma_incomplete_matches_nothing(
    side: SideView,
    n: int,
    probe: Seq<Option<Seq<char>>>,
)
    requires
        !complete(probe),
    ensures
        matching(side, n, probe).len() == 0,
    decreases n,
{
    if 0 < n <= side.records.len() {
        lemma_incomplete_matches_nothing(side, n - 1, probe);
    }
}

/// The records that join with a complete key are those of the bucket of its hash that
/// join with it.
pub proof fn lemma_matching_in_bucket(side: SideView, n: int, probe: Seq<Option<Seq<char>>>)
    requires
        0 <= n <= side.records.len(),
    ensures
        matching(side, n, probe) == filtered(side, bucket(side, key_hash(probe), n), probe),
    decreases n,
{
    let h = key_hash(probe);
    if n > 0 {
        lemma_matching_in_bucket(side, n - 1, probe);
        let k = side.key_of(side.records[n - 1]);
        let before = bucket(side, h, n - 1);
        if keys_match(probe, k) {
            assert(probe =~= k);
            assert(complete(k));
            assert(before.push(n - 1).drop_last() =~= before);
        } else if complete(k) && key_hash(k) == h {
            assert(before.push(n - 1).drop_last() =~= before);
        }
    }
}

/// The texts of a list of records.
pub open spec fn record_texts(data: Seq<Vec<String>>) -> Seq<Tuple> {
    Seq::new(data.len(), |i: int| texts(data[i]@))
}

/// The texts of a key.
pub open spec fn key_texts(k: Seq<Option<String>>) -> Seq<Option<Seq<char>>> {
    Seq::new(
        k.len(),
        |i: int|
            match k[i] {
                Some(s) => Some(s@),
                None => None,
            },
    )
}

impl JoinData {
    pub closed spec fn view(&self) -> SideView {
        SideView {
            attrs: texts(self.attrs@),
            header: match self.header {
                Some(h) => Some(texts(h@)),
                None => None,
            },
            records: record_texts(self.data@),
        }
    }

    /// The places of the join attributes are those in the header, no record has come
    /// before the header, and the index holds under each hash the places of the records
    /// that have a complete key with that hash, in order.
    pub closed spec fn wf(&self) -> bool {
        &&& self.join_attr_positions@.len() == self.attrs@.len()
        &&& forall|h: u64| #[trigger]
            self.join_attr_indices@.contains_key(h) ==> places(self.join_attr_indices@[h]@)
                == bucket(self@, h, self.data@.len() as int)
        &&& forall|h: u64|
            !(#[trigger] self.join_attr_indices@.contains_key(h)) ==> bucket(
                self@,
                h,
                self.data@.len() as int,
            ).len() == 0
        &&& match self.header {
            Some(h) => forall|i: int|
                0 <= i < self.attrs@.len() ==> match #[trigger] self.join_attr_positions@[i] {
                    Some(p) => position(texts(h@), self.attrs@[i]@) == Some(p as int),
                    None => position(texts(h@), self.attrs@[i]@) is None,
                },
            None => self.data@.len() == 0,
        }
    }

    /// A side that joins on `attrs` and has seen nothing yet.
    pub fn new(attrs: Vec<String>) -> (r: JoinData)
        ensures
            r.wf(),
            r@ == (SideView { attrs: texts(attrs@), header: None, records: Seq::empty() }),
    {
        let mut positions: Vec<Option<usize>> = Vec::new();
        let mut i: usize = 0;
        while i < attrs.len()
            invariant
                i <= attrs.len(),
                positions.len() == i,
            decreases attrs.len() - i,
        {
            positions.push(None);
            i += 1;
        }
        let r = JoinData {
            attrs,
            header: None,
            join_attr_positions: positions,
            data: Vec::new(),
            join_attr_indices: HashMap::new(),
        };
        assert(r@.records =~= Seq::empty());
        r
    }

    /// The hash of a key, if the key has a value for every join attribute.
    pub fn hash_key(k: &Vec<Option<String>>) -> (r: Option<u64>)
        ensures
            match r {
                Some(h) => complete(key_texts(k@)) && h == key_hash(key_texts(k@)),
                None => !complete(key_texts(k@)),
            },
    {
        let ghost all = key_texts(k@);
        let mut h: u64 = 7;
        let mut i: usize = 0;
        assert(all.take(0) =~= Seq::empty());
        while i < k.len()
            invariant
                i <= k.len(),
                all == key_texts(k@),
                complete(all.take(i as int)),
                h == key_hash(all.take(i as int)),
            decreases k.len() - i,
        {
            proof {
                assert(all.take(i + 1).drop_last() =~= all.take(i as int));
                assert(all.take(i + 1).last() == all[i as int]);
            }
            match &k[i] {
                Some(v) => {
                    h = h.wrapping_mul(31).wrapping_add(hash_text(v.as_str()));
                    assert forall|j: int| 0 <= j < i + 1 implies (#[trigger] all.take(
                        i + 1,
                    )[j]) is Some by {
                        if j < i {
                            assert(all.take(i as int)[j] is Some);
                        }
                    }
                },
                None => {
                    assert(all[i as int] is None);
                    return None;
                },
            }
            i += 1;
        }
        assert(all.take(i as int) =~= all);
        Some(h)
    }

    /// Takes the header of the side and finds the place of each join attribute in it.
    pub fn set_join_attribute_positions(&mut self, header: &[String])
        requires
            old(self).wf(),
            old(self)@.header is None,
        ensures
            final(self).wf(),
            final(self)@ == (SideView { header: Some(texts(header@)), ..old(self)@ }),
    {
        let n = self.attrs.len();
        let mut positions: Vec<Option<usize>> = Vec::new();
        let mut i: usize = 0;
        while i < n
            invariant
                i <= n,
                n == self.attrs.len(),
                positions.len() == i,
                forall|j: int|
                    0 <= j < i ==> match #[trigger] positions@[j] {
                        Some(p) => position(texts(header@), self.attrs@[j]@) == Some(p as int),
                        None => position(texts(header@), self.attrs@[j]@) is None,
                    },
            decreases n - i,
        {
            positions.push(find_text(header, self.attrs[i].as_str()));
            i += 1;
        }
        self.join_attr_positions = positions;
        self.header = Some(copy_strings(header));
        assert(self@.records =~= old(self)@.records);
    }

    /// The join key of a record of this side.
    pub fn key_of(&self, record: &[String]) -> (k: Vec<Option<String>>)
        requires
            self.wf(),
            self@.header is Some,
        ensures
            key_texts(k@) == self@.key_of(texts(record@)),
    {
        let mut k: Vec<Option<String>> = Vec::new();
        let mut i: usize = 0;
        let ghost want = self@.key_of(texts(record@));
        while i < self.join_attr_positions.len()
            invariant
                i <= self.join_attr_positions.len(),
                self.wf(),
                self@.header is Some,
                want == self@.key_of(texts(record@)),
                k.len() == i,
                forall|j: int| 0 <= j < i ==> (#[trigger] key_texts(k@)[j]) == want[j],
            decreases self.join_attr_positions.len() - i,
        {
            let ghost before = key_texts(k@);
            let next = match self.join_attr_positions[i] {
                Some(p) => if p < record.len() {
                    Some(record[p].clone())
                } else {
                    None
                },
                None => None,
            };
            k.push(next);
            assert forall|j: int| 0 <= j < i + 1 implies (#[trigger] key_texts(k@)[j])
                == want[j] by {
                if j < i {
                    assert(key_texts(k@)[j] == before[j]);
                }
            }
            i += 1;
        }
        assert(key_texts(k@) =~= want);
        k
    }

    /// Keeps a record and gives its join key.
    pub fn add(&mut self, data: &[String]) -> (join_attr_values: Vec<Option<String>>)
        requires
            old(self).wf(),
            old(self)@.header is Some,
        ensures
            final(self).wf(),
            final(self)@ == (SideView {
                records: old(self)@.records.push(texts(data@)),
                ..old(self)@
            }),
            key_texts(join_attr_values@) == old(self)@.key_of(texts(data@)),
    {
        let k = self.key_of(data);
        let ghost before = self@;
        let ghost n = self.data@.len() as int;
        let place = self.data.len();
        self.data.push(copy_strings(data));
        assert(self@.records =~= before.records.push(texts(data@)));
        let ghost after = self@;
        proof {
            assert(after.key_of(after.records[n]) == key_texts(k@));
            assert forall|h: u64| #[trigger]
                bucket(after, h, n) == bucket(before, h, n) by {
                lemma_bucket_prefix(before, after, h, n);
            }
        }
        let ghost index = self.join_attr_indices@;
        let hashed = Self::hash_key(&k);
        if let Some(h) = hashed {
            let found = self.join_attr_indices.remove(&h);
            let mut list = match found {
                Some(list) => list,
                None => Vec::new(),
            };
            let ghost old_list = places(list@);
            proof {
                if index.contains_key(h) {
                    assert(places(index[h]@) == bucket(before, h, n));
                } else {
                    assert(bucket(before, h, n).len() == 0);
                }
                assert(old_list =~= bucket(before, h, n));
            }
            list.push(place);
            assert(places(list@) =~= old_list.push(n));
            self.join_attr_indices.insert(h, list);
        }
        proof {
            assert(self@ == after);
            let now = self.join_attr_indices@;
            assert forall|h: u64| #[trigger] now.contains_key(h) implies places(now[h]@) == bucket(
                after,
                h,
                n + 1,
            ) by {
                assert(bucket(after, h, n) == bucket(before, h, n));
                if hashed == Some(h) {
                } else {
                    assert(index.contains_key(h));
                    assert(places(index[h]@) == bucket(before, h, n));
                }
            }
            assert forall|h: u64| !(#[trigger] now.contains_key(h)) implies bucket(
                after,
                h,
                n + 1,
            ).len() == 0 by {
                assert(bucket(after, h, n) == bucket(before, h, n));
                assert(!index.contains_key(h));
            }
        }
        k
    }

    /// Tells whether two keys match.
    pub fn keys_agree(a: &Vec<Option<String>>, b: &Vec<Option<String>>) -> (r: bool)
        ensures
            r == keys_match(key_texts(a@), key_texts(b@)),
    {
        if a.len() != b.len() {
            return false;
        }
        let mut i: usize = 0;
        while i < a.len()
            invariant
                i <= a.len(),
                a.len() == b.len(),
                forall|j: int|
                    0 <= j < i ==> (#[trigger] key_texts(a@)[j]) is Some && key_texts(a@)[j]
                        == key_texts(b@)[j],
            decreases a.len() - i,
        {
            let same = match (&a[i], &b[i]) {
                (Some(x), Some(y)) => same_text(x.as_str(), y.as_str()),
                _ => false,
            };
            if !same {
                assert(!(key_texts(a@)[i as int] is Some && key_texts(a@)[i as int] == key_texts(
                    b@,
                )[i as int]));
                return false;
            }
            i += 1;
        }
        true
    }

    /// The places of the records that join with a record with the key `join_attr_values`,
    /// in the order in which they came; nothing if there is none.
    pub fn return_values_if_match(&self, join_attr_values: &Vec<Option<String>>) -> (r: Option<
        Vec<usize>,
    >)
        requires
            self.wf(),
        ensures
            ({
                let found = matching(
                    self@,
                    self@.records.len() as int,
                    key_texts(join_attr_values@),
                );
                match r {
                    Some(v) => v@.len() > 0 && v@.len() == found.len() && forall|i: int|
                        0 <= i < v@.len() ==> (#[trigger] v@[i]) as int == found[i] && v@[i]
                            < self@.records.len(),
                    None => found.len() == 0,
                }
            }),
    {
        let ghost probe = key_texts(join_attr_values@);
        let ghost side = self@;
        let ghost n = self.data@.len() as int;
        let mut found: Vec<usize> = Vec::new();
        let hashed = Self::hash_key(join_attr_values);
        proof {
            assert(side.records.len() == n);
            lemma_matching_in_bucket(side, n, probe);
            if hashed is None {
                lemma_incomplete_matches_nothing(side, n, probe);
            }
        }
        if let Some(h) = hashed {
            if let Some(candidates) = self.join_attr_indices.get(&h) {
                let ghost list = places(candidates@);
                proof {
                    assert(list == bucket(side, h, n));
                    lemma_bucket_in_range(side, h, n);
                    assert(list.take(0) =~= Seq::empty());
                }
                let mut j: usize = 0;
                while j < candidates.len()
                    invariant
                        j <= candidates.len(),
                        self.wf(),
                        side == self@,
                        n == self.data@.len(),
                        probe == key_texts(join_attr_values@),
                        list == places(candidates@),
                        forall|i: int| 0 <= i < list.len() ==> 0 <= #[trigger] list[i] < n,
                        places(found@) == filtered(side, list.take(j as int), probe),
                        forall|i: int| 0 <= i < found@.len() ==> (#[trigger] found@[i]) < n,
                    decreases candidates.len() - j,
                {
                    let place = candidates[j];
                    proof {
                        assert(list.take(j + 1).drop_last() =~= list.take(j as int));
                        assert(list.take(j + 1).last() == place as int);
                        assert(0 <= list[j as int] < n);
                        assert(side.records[place as int] == texts(self.data@[place as int]@));
                    }
                    let k = self.key_of(self.data[place].as_slice());
                    if Self::keys_agree(join_attr_values, &k) {
                        let ghost before = places(found@);
                        found.push(place);
                        assert(places(found@) =~= before.push(place as int));
                    }
                    j += 1;
                }
                assert(list.take(j as int) =~= list);
            } else {
                assert(bucket(side, h, n).len() == 0);
                assert(filtered(side, bucket(side, h, n), probe) =~= Seq::empty());
                assert(places(found@) =~= Seq::empty());
            }
        } else {
            assert(places(found@) =~= Seq::empty());
        }
        assert(places(found@) == matching(side, n, probe));
        if found.len() == 0 {
            None
        } else {
            assert forall|i: int| 0 <= i < found@.len() implies (#[trigger] found@[i]) as int
                == matching(side, n, probe)[i] by {
                assert(places(found@)[i] == found@[i] as int);
            }
            Some(found)
        }
    }

    /// The record at place `i`.
    pub fn record(&self, i: usize) -> (r: &Vec<String>)
        requires
            i < self@.records.len(),
        ensures
            texts(r@) == self@.records[i as int],
    {
        &self.data[i]
    }

    /// The header, once it has come.
    pub fn header(&self) -> (r: &Option<Vec<String>>)
        ensures
            match *r {
                Some(h) => self@.header == Some(texts(h@)),
                None => self@.header is None,
            },
    {
        &self.header
    }
}

/// What a join is at some moment: its identifiers, the prefix for the names of the right
/// side, and what each side has seen.
pub struct JoinView {
    pub id: Seq<char>,
    pub left_id: Seq<char>,
    pub right_id: Seq<char>,
    pub prefix: Seq<char>,
    pub left: SideView,
    pub right: SideView,
}

/// The header that a join announces: its identifier, the names of the left side and the
/// names of the right side with the prefix in front.
pub open spec fn merged_header(v: JoinView) -> Tuple {
    seq![v.id] + v.left.names() + Seq::new(
        v.right.names().len(),
        |i: int| v.prefix + v.right.names()[i],
    )
}

/// A left record and a right record as one tuple of the join.
pub open spec fn merged(id: Seq<char>, l: Tuple, r: Tuple) -> Tuple {
    seq![id] + l + r
}

/// The tuples that a new left record `l` gives: one for each right record that joins with
/// it, in the order in which those came.
pub open spec fn row(v: JoinView, l: Tuple) -> Seq<Tuple> {
    let found = matching(v.right, v.right.records.len() as int, v.left.key_of(l));
    Seq::new(found.len(), |k: int| merged(v.id, l, v.right.records[found[k]]))
}

/// The tuples that a new right record `r` gives with the first `n` left records: one for
/// each left record that joins with it, in the order in which those came.
pub open spec fn col(v: JoinView, r: Tuple, n: int) -> Seq<Tuple> {
    let found = matching(v.left, n, v.right.key_of(r));
    Seq::new(found.len(), |k: int| merged(v.id, v.left.records[found[k]], r))
}

/// What a tuple does to a join: the join afterwards, the header to announce, if both
/// headers have come with this tuple, and the joined tuples to send.
pub struct JoinStep {
    pub state: JoinView,
    pub header: Option<Tuple>,
    pub data: Seq<Tuple>,
}

/// A join takes a tuple. The first element of the tuple tells the side. The first tuple of
/// a side is its header, every later one a record, which is kept and joined with the
/// records of the other side. A tuple of neither side is passed over.
pub open spec fn step(v: JoinView, t: Tuple) -> JoinStep {
    if t.len() == 0 {
        JoinStep { state: v, header: None, data: Seq::empty() }
    } else if t[0] == v.left_id {
        match v.left.header {
            None => {
                let next = JoinView {
                    left: SideView { header: Some(payload(t)), ..v.left },
                    ..v
                };
                JoinStep {
                    state: next,
                    header: if v.right.header is Some {
                        Some(merged_header(next))
                    } else {
                        None
                    },
                    data: Seq::empty(),
                }
            },
            Some(_) => JoinStep {
                state: JoinView {
                    left: SideView { records: v.left.records.push(payload(t)), ..v.left },
                    ..v
                },
                header: None,
                data: row(v, payload(t)),
            },
        }
    } else if t[0] == v.right_id {
        match v.right.header {
            None => {
                let next = JoinView {
                    right: SideView { header: Some(payload(t)), ..v.right },
                    ..v
                };
                JoinStep {
                    state: next,
                    header: if v.left.header is Some {
                        Some(merged_header(next))
                    } else {
                        None
                    },
                    data: Seq::empty(),
                }
            },
            Some(_) => JoinStep {
                state: JoinView {
                    right: SideView { records: v.right.records.push(payload(t)), ..v.right },
                    ..v
                },
                header: None,
                data: col(v, payload(t), v.left.records.len() as int),
            },
        }
    } else {
        JoinStep { state: v, header: None, data: Seq::empty() }
    }
}

/// The tuples to send for a step: the header, if there is one, and then the joined tuples.
pub open spec fn sent(s: JoinStep) -> Seq<Tuple> {
    match s.header {
        Some(h) => seq![h] + s.data,
        None => s.data,
    }
}

/// The first attribute of every pair.
pub open spec fn left_attrs(pairs: Seq<(Seq<char>, Seq<char>)>) -> Seq<Seq<char>> {
    Seq::new(pairs.len(), |i: int| pairs[i].0)
}

/// The second attribute of every pair.
pub open spec fn right_attrs(pairs: Seq<(Seq<char>, Seq<char>)>) -> Seq<Seq<char>> {
    Seq::new(pairs.len(), |i: int| pairs[i].1)
}

/// The inner join of two inputs.
pub struct JoinOperator {
    node_id: String,
    left_node_id: String,
    right_node_id: String,
    right_node_attr_prefix: String,
    left: JoinData,
    right: JoinData,
}

/// The texts of a list of tuples.
pub open spec fn tuple_texts(out: Seq<Vec<String>>) -> Seq<Tuple> {
    Seq::new(out.len(), |i: int| texts(out[i]@))
}

impl JoinOperator {
    pub closed spec fn view(&self) -> JoinView {
        JoinView {
            id: self.node_id@,
            left_id: self.left_node_id@,
            right_id: self.right_node_id@,
            prefix: self.right_node_attr_prefix@,
            left: self.left@,
            right: self.right@,
        }
    }

    pub closed spec fn wf(&self) -> bool {
        self.left.wf() && self.right.wf()
    }

    /// An inner join that has seen nothing yet.
    pub fn new(config: &Join, left_node_id: &usize, right_node_id: &usize, node_id: &usize) -> (r:
        Self)
        requires
            config.join_type == JoinType::InnerJoin,
        ensures
            r.wf(),
            r@ == (JoinView {
                id: decimal(*node_id as nat),
                left_id: decimal(*left_node_id as nat),
                right_id: decimal(*right_node_id as nat),
                prefix: config.join_alias@.push('_'),
                left: SideView {
                    attrs: left_attrs(pair_texts(config.left_right_attr_pairs@)),
                    header: None,
                    records: Seq::empty(),
                },
                right: SideView {
                    attrs: right_attrs(pair_texts(config.left_right_attr_pairs@)),
                    header: None,
                    records: Seq::empty(),
                },
            }),
    {
        let mut lefts: Vec<String> = Vec::new();
        let mut rights: Vec<String> = Vec::new();
        let mut i: usize = 0;
        while i < config.left_right_attr_pairs.len()
            invariant
                i <= config.left_right_attr_pairs.len(),
                lefts.len() == i,
                rights.len() == i,
                forall|j: int|
                    0 <= j < i ==> (#[trigger] lefts@[j])@ == config.left_right_attr_pairs@[j].0@,
                forall|j: int|
                    0 <= j < i ==> (#[trigger] rights@[j])@ == config.left_right_attr_pairs@[j].1@,
            decreases config.left_right_attr_pairs.len() - i,
        {
            lefts.push(config.left_right_attr_pairs[i].0.clone());
            rights.push(config.left_right_attr_pairs[i].1.clone());
            i += 1;
        }
        assert(texts(lefts@) =~= left_attrs(pair_texts(config.left_right_attr_pairs@)));
        assert(texts(rights@) =~= right_attrs(pair_texts(config.left_right_attr_pairs@)));
        let mut prefix = config.join_alias.clone();
        prefix.push('_');
        JoinOperator {
            node_id: decimal_string(*node_id),
            left_node_id: decimal_string(*left_node_id),
            right_node_id: decimal_string(*right_node_id),
            right_node_attr_prefix: prefix,
            left: JoinData::new(lefts),
            right: JoinData::new(rights),
        }
    }

    /// The header to announce once both sides have sent theirs.
    fn announce(&self) -> (r: Vec<String>)
        requires
            self.wf(),
        ensures
            texts(r@) == merged_header(self@),
    {
        let mut out: Vec<String> = Vec::new();
        out.push(self.node_id.clone());
        if let Some(h) = self.left.header() {
            let mut i: usize = 0;
            while i < h.len()
                invariant
                    i <= h.len(),
                    texts(out@) == seq![self.node_id@] + texts(h@).take(i as int),
                decreases h.len() - i,
            {
                let ghost before = texts(out@);
                out.push(h[i].clone());
                assert(texts(out@) =~= before.push(texts(h@)[i as int]));
                assert(texts(h@).take(i + 1) =~= texts(h@).take(i as int).push(texts(h@)[i as int]));
                assert(texts(out@) =~= seq![self.node_id@] + texts(h@).take(i + 1));
                i += 1;
            }
            assert(texts(h@).take(i as int) =~= texts(h@));
        }
        assert(texts(out@) =~= seq![self@.id] + self@.left.names());
        let ghost head = texts(out@);
        if let Some(h) = self.right.header() {
            let mut i: usize = 0;
            while i < h.len()
                invariant
                    i <= h.len(),
                    out@.len() == head.len() + i,
                    texts(out@).take(head.len() as int) == head,
                    forall|m: int|
                        head.len() <= m < head.len() + i ==> (#[trigger] out@[m])@
                            == self.right_node_attr_prefix@ + h@[m - head.len()]@,
                decreases h.len() - i,
            {
                let mut name = self.right_node_attr_prefix.clone();
                name.append(h[i].as_str());
                let ghost before = texts(out@);
                out.push(name);
                assert(texts(out@).take(head.len() as int) =~= before.take(head.len() as int));
                i += 1;
            }
        }
        assert forall|m: int| 0 <= m < head.len() implies texts(out@)[m] == head[m] by {
            assert(texts(out@).take(head.len() as int)[m] == head[m]);
        }
        assert(texts(out@) =~= merged_header(self@));
        out
    }

    /// Takes the next tuple of the input and gives the tuples to send.
    pub fn on_tuple(&mut self, tuple: &[String]) -> (out: Vec<Vec<String>>)
        requires
            old(self).wf(),
        ensures
            final(self).wf(),
            final(self)@ == step(old(self)@, texts(tuple@)).state,
            tuple_texts(out@) == sent(step(old(self)@, texts(tuple@))),
    {
        let ghost v = self@;
        let ghost t = texts(tuple@);
        let mut out: Vec<Vec<String>> = Vec::new();
        if tuple.len() == 0 {
            assert(tuple_texts(out@) =~= Seq::empty());
            return out;
        }
        let real_data = payload_of(tuple);
        assert(t[0] == tuple@[0]@);
        if same_text(tuple[0].as_str(), self.left_node_id.as_str()) {
            if self.left.header().is_none() {
                self.left.set_join_attribute_positions(real_data.as_slice());
                if self.right.header().is_some() {
                    out.push(self.announce());
                    assert(tuple_texts(out@) =~= seq![merged_header(self@)]);
                } else {
                    assert(tuple_texts(out@) =~= Seq::empty());
                }
            } else {
                let found = process_data_for_one_join_side(
                    real_data.as_slice(),
                    &mut self.left,
                    &self.right,
                );
                if let Some(places) = found {
                    let mut k: usize = 0;
                    while k < places.len()
                        invariant
                            k <= places.len(),
                            self.wf(),
                            self@.right == v.right,
                            self@.id == v.id,
                            texts(real_data@) == payload(t),
                            row(v, payload(t)).len() == places.len(),
                            forall|j: int|
                                0 <= j < places.len() ==> (#[trigger] places@[j])
                                    < v.right.records.len() && row(v, payload(t))[j] == merged(
                                    v.id,
                                    payload(t),
                                    v.right.records[places@[j] as int],
                                ),
                            out.len() == k,
                            forall|j: int|
                                0 <= j < k ==> texts((#[trigger] out@[j])@) == row(v, payload(t))[j],
                        decreases places.len() - k,
                    {
                        let other = self.right.record(places[k]);
                        let joined = join_tuples(
                            self.node_id.as_str(),
                            real_data.as_slice(),
                            other.as_slice(),
                        );
                        out.push(joined);
                        k += 1;
                    }
                    assert(tuple_texts(out@) =~= row(v, payload(t)));
                } else {
                    assert(tuple_texts(out@) =~= row(v, payload(t)));
                }
            }
        } else if same_text(tuple[0].as_str(), self.right_node_id.as_str()) {
            if self.right.header().is_none() {
                self.right.set_join_attribute_positions(real_data.as_slice());
                if self.left.header().is_some() {
                    out.push(self.announce());
                    assert(tuple_texts(out@) =~= seq![merged_header(self@)]);
                } else {
                    assert(tuple_texts(out@) =~= Seq::empty());
                }
            } else {
                let found = process_data_for_one_join_side(
                    real_data.as_slice(),
                    &mut self.right,
                    &self.left,
                );
                let ghost n = v.left.records.len() as int;
                if let Some(places) = found {
                    let mut k: usize = 0;
                    while k < places.len()
                        invariant
                            k <= places.len(),
                            self.wf(),
                            self@.left == v.left,
                            self@.id == v.id,
                            n == v.left.records.len(),
                            texts(real_data@) == payload(t),
                            col(v, payload(t), n).len() == places.len(),
                            forall|j: int|
                                0 <= j < places.len() ==> (#[trigger] places@[j])
                                    < v.left.records.len() && col(v, payload(t), n)[j] == merged(
                                    v.id,
                                    v.left.records[places@[j] as int],
                                    payload(t),
                                ),
                            out.len() == k,
                            forall|j: int|
                                0 <= j < k ==> texts((#[trigger] out@[j])@) == col(
                                    v,
                                    payload(t),
                                    n,
                                )[j],
                        decreases places.len() - k,
                    {
                        let other = self.left.record(places[k]);
                        let joined = join_tuples(
                            self.node_id.as_str(),
                            other.as_slice(),
                            real_data.as_slice(),
                        );
                        out.push(joined);
                        k += 1;
                    }
                    assert(tuple_texts(out@) =~= col(v, payload(t), n));
                } else {
                    assert(tuple_texts(out@) =~= col(v, payload(t), n));
                }
            }
        } else {
            assert(tuple_texts(out@) =~= Seq::empty());
        }
        out
    }
}

/// Keeps a record on its side and gives the places of the records of the other side that
/// join with it, in the order in which they came; nothing if there is none.
pub fn process_data_for_one_join_side(
    data: &[String],
    join_data: &mut JoinData,
    other_join_data: &JoinData,
) -> (r: Option<Vec<usize>>)
    requires
        old(join_data).wf(),
        old(join_data)@.header is Some,
        other_join_data.wf(),
    ensures
        final(join_data).wf(),
        final(join_data)@ == (SideView {
            records: old(join_data)@.records.push(texts(data@)),
            ..old(join_data)@
        }),
        ({
            let found = matching(
                other_join_data@,
                other_join_data@.records.len() as int,
                old(join_data)@.key_of(texts(data@)),
            );
            match r {
                Some(v) => v@.len() > 0 && v@.len() == found.len() && forall|i: int|
                    0 <= i < v@.len() ==> (#[trigger] v@[i]) as int == found[i] && v@[i]
                        < other_join_data@.records.len(),
                None => found.len() == 0,
            }
        }),
{
    let join_attr_values = join_data.add(data);
    other_join_data.return_values_if_match(&join_attr_values)
}

/// The tuple of a join for a left record and a right record: the identifier of the join,
/// the values of the left record, the values of the right record.
pub fn join_tuples(node_id: &str, left: &[String], right: &[String]) -> (r: Vec<String>)
    ensures
        texts(r@) == merged(node_id@, texts(left@), texts(right@)),
{
    let mut out: Vec<String> = Vec::new();
    out.push(node_id.to_string());
    let mut i: usize = 0;
    while i < left.len()
        invariant
            i <= left.len(),
            texts(out@) == seq![node_id@] + texts(left@).take(i as int),
        decreases left.len() - i,
    {
        let ghost before = texts(out@);
        out.push(left[i].clone());
        assert(texts(out@) =~= before.push(texts(left@)[i as int]));
        assert(texts(out@) =~= seq![node_id@] + texts(left@).take(i + 1));
        i += 1;
    }
    assert(texts(left@).take(i as int) =~= texts(left@));
    let mut j: usize = 0;
    while j < right.len()
        invariant
            j <= right.len(),
            texts(out@) == seq![node_id@] + texts(left@) + texts(right@).take(j as int),
        decreases right.len() - j,
    {
        let ghost before = texts(out@);
        out.push(right[j].clone());
        assert(texts(out@) =~= before.push(texts(right@)[j as int]));
        assert(texts(out@) =~= seq![node_id@] + texts(left@) + texts(right@).take(j + 1));
        j += 1;
    }
    assert(texts(right@).take(j as int) =~= texts(right@));
    out
}

} // verus!
