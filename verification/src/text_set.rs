use vstd::prelude::*;
use vstd::std_specs::iter::IteratorSpec;
use std::collections::HashMap;
use crate::text::{find_text, lemma_position, position, texts};

verus! {

broadcast use vstd::std_specs::hash::group_hash_axioms;

/// The hash of a text with one more character.
pub open spec fn mixed(h: u64, c: char) -> u64 {
    h.wrapping_mul(31).wrapping_add(c as u64)
}

/// The hash of a text: the same number for the same text, always.
pub open spec fn text_hash(text: Seq<char>) -> u64
    decreases text.len(),
{
    if text.len() == 0 {
        7
    } else {
        mixed(text_hash(text.drop_last()), text.last())
    }
}

/// Computes the hash of a text.
pub fn hash_text(text: &str) -> (h: u64)
    ensures
        h == text_hash(text@),
{
    let mut h: u64 = 7;
    let ghost mut n: int = 0;
    assert(text@.take(0) =~= Seq::empty());
    for c in it: text.chars()
        invariant
            it.seq() == text@,
            n == it.index(),
            h == text_hash(text@.take(n)),
    {
        proof {
            assert(text@.take(n + 1).drop_last() =~= text@.take(n));
            assert(text@.take(n + 1).last() == c);
            n = n + 1;
        }
        h = h.wrapping_mul(31).wrapping_add(c as u64);
    }
    assert(text@.take(n) =~= text@);
    h
}

/// A set of texts, found by their hashes.
pub struct TextSet {
    buckets: HashMap<u64, Vec<String>>,
}

impl TextSet {
    /// Whether a text is in the set.
    pub closed spec fn has(&self, text: Seq<char>) -> bool {
        self.buckets@.contains_key(text_hash(text)) && texts(
            self.buckets@[text_hash(text)]@,
        ).contains(text)
    }

    /// The texts of the set.
    pub open spec fn view(&self) -> Set<Seq<char>> {
        Set::new(|text: Seq<char>| self.has(text))
    }

    /// The empty set.
    pub fn new() -> (r: Self)
        ensures
            r@ == Set::<Seq<char>>::empty(),
    {
        let r = TextSet { buckets: HashMap::new() };
        assert(r@ =~= Set::<Seq<char>>::empty());
        r
    }

    /// Tells whether a text is in the set.
    pub fn contains(&self, text: &str) -> (b: bool)
        ensures
            b == self@.contains(text@),
    {
        let h = hash_text(text);
        match self.buckets.get(&h) {
            Some(bucket) => {
                proof {
                    lemma_position(texts(bucket@), text@);
                }
                find_text(bucket.as_slice(), text).is_some()
            },
            None => false,
        }
    }

    /// Puts a text into the set and tells whether it was not there before.
    pub fn insert(&mut self, text: String) -> (fresh: bool)
        ensures
            fresh == !old(self)@.contains(text@),
            final(self)@ == old(self)@.insert(text@),
    {
        let h = hash_text(text.as_str());
        let ghost before = self.buckets@;
        let found = self.buckets.remove(&h);
        let mut bucket = match found {
            Some(bucket) => bucket,
            None => Vec::new(),
        };
        proof {
            lemma_position(texts(bucket@), text@);
            if found is None {
                assert(texts(bucket@) =~= Seq::empty());
            }
        }
        let known = find_text(bucket.as_slice(), text.as_str()).is_some();
        let ghost old_bucket = texts(bucket@);
        if !known {
            bucket.push(text);
            assert(texts(bucket@) =~= old_bucket.push(text@));
        }
        self.buckets.insert(h, bucket);
        proof {
            assert forall|t: Seq<char>| self.has(t) <==> (old(self).has(t) || t == text@) by {
                if text_hash(t) == h {
                    if old_bucket.contains(t) {
                        let k = choose|k: int| 0 <= k < old_bucket.len() && old_bucket[k] == t;
                        assert(texts(bucket@)[k] == t);
                    }
                    if texts(bucket@).contains(t) && t != text@ {
                        let k = choose|k: int| 0 <= k < bucket@.len() && texts(bucket@)[k] == t;
                        assert(old_bucket[k] == t);
                    }
                    if t == text@ && !known {
                        assert(texts(bucket@)[old_bucket.len() as int] == t);
                    }
                } else {
                    assert(self.buckets@.contains_key(text_hash(t)) == before.contains_key(
                        text_hash(t),
                    ));
                }
            }
            assert(self@ =~= old(self)@.insert(text@));
        }
        !known
    }
}

} // verus!
