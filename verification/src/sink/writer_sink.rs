use vstd::prelude::*;
use vstd::string::StringExecFns;
use crate::text::{decimal, decimal_string, payload, texts};
use crate::text_set::TextSet;

verus! {

/// The texts joined with a line break between one and the next.
pub open spec fn joined(items: Seq<Seq<char>>) -> Seq<char>
    decreases items.len(),
{
    if items.len() == 0 {
        Seq::empty()
    } else if items.len() == 1 {
        items[0]
    } else {
        joined(items.drop_last()) + seq!['\n'] + items.last()
    }
}

/// What a sink writes for a tuple: the elements after the first, joined with line breaks,
/// and a line break at the end.
pub open spec fn block(tuple: Seq<Seq<char>>) -> Seq<char> {
    joined(payload(tuple)).push('\n')
}

/// The texts of `blocks` in the order in which each comes first, each once.
pub open spec fn first_occurrences(blocks: Seq<Seq<char>>) -> Seq<Seq<char>>
    decreases blocks.len(),
{
    if blocks.len() == 0 {
        Seq::empty()
    } else {
        let before = first_occurrences(blocks.drop_last());
        if before.contains(blocks.last()) {
            before
        } else {
            before.push(blocks.last())
        }
    }
}

/// What a sink is at some moment: its identifier, whether it drops what it has written
/// before, and, if it does, what it has written.
pub struct SinkView {
    pub id: Seq<char>,
    pub deduplicate: bool,
    pub seen: Set<Seq<char>>,
}

/// What a sink writes for a tuple, if anything, and what it is afterwards.
pub open spec fn sink_step(v: SinkView, tuple: Seq<Seq<char>>) -> (SinkView, Option<Seq<char>>) {
    let text = block(tuple);
    if !v.deduplicate {
        (v, Some(text))
    } else if v.seen.contains(text) {
        (v, None)
    } else {
        (SinkView { seen: v.seen.insert(text), ..v }, Some(text))
    }
}

/// The sink after it has taken the tuples, in order.
pub open spec fn sink_after(v: SinkView, tuples: Seq<Seq<Seq<char>>>) -> SinkView
    decreases tuples.len(),
{
    if tuples.len() == 0 {
        v
    } else {
        sink_step(sink_after(v, tuples.drop_last()), tuples.last()).0
    }
}

/// What the sink has written while it took the tuples, in order.
pub open spec fn written(v: SinkView, tuples: Seq<Seq<Seq<char>>>) -> Seq<Seq<char>>
    decreases tuples.len(),
{
    if tuples.len() == 0 {
        Seq::empty()
    } else {
        let before = written(v, tuples.drop_last());
        match sink_step(sink_after(v, tuples.drop_last()), tuples.last()).1 {
            Some(text) => before.push(text),
            None => before,
        }
    }
}

/// The blocks of the tuples, in order.
pub open spec fn blocks_of(tuples: Seq<Seq<Seq<char>>>) -> Seq<Seq<char>> {
    Seq::new(tuples.len(), |i: int| block(tuples[i]))
}

/// The first occurrences hold every text of the list, and none twice.
pub proof fn lemma_first_occurrences(blocks: Seq<Seq<char>>)
    ensures
        first_occurrences(blocks).no_duplicates(),
        forall|text: Seq<char>| first_occurrences(blocks).contains(text) <==> blocks.contains(text),
    decreases blocks.len(),
{
    if blocks.len() > 0 {
        let rest = blocks.drop_last();
        let last = blocks.last();
        lemma_first_occurrences(rest);
        let before = first_occurrences(rest);
        let all = first_occurrences(blocks);
        assert forall|text: Seq<char>| all.contains(text) <==> blocks.contains(text) by {
            if all.contains(text) {
                let k = choose|k: int| 0 <= k < all.len() && all[k] == text;
                if k < before.len() {
                    assert(before[k] == text);
                    assert(before.contains(text));
                    assert(rest.contains(text));
                    let j = choose|j: int| 0 <= j < rest.len() && rest[j] == text;
                    assert(blocks[j] == text);
                } else {
                    assert(blocks[blocks.len() - 1] == text);
                }
            }
            if blocks.contains(text) {
                let j = choose|j: int| 0 <= j < blocks.len() && blocks[j] == text;
                if j < rest.len() {
                    assert(rest[j] == text);
                    assert(rest.contains(text));
                    assert(before.contains(text));
                    let k = choose|k: int| 0 <= k < before.len() && before[k] == text;
                    assert(all[k] == text);
                } else if !before.contains(text) {
                    assert(all[all.len() - 1] == text);
                }
            }
        }
    }
}

/// A sink that drops what it has written before writes each distinct block exactly once,
/// in the order in which the blocks come first.
pub proof fn deduplicating_sink_writes_each_block_once(v: SinkView, tuples: Seq<Seq<Seq<char>>>)
    requires
        v.deduplicate,
        v.seen == Set::<Seq<char>>::empty(),
    ensures
        written(v, tuples) == first_occurrences(blocks_of(tuples)),
        written(v, tuples).no_duplicates(),
        forall|text: Seq<char>|
            written(v, tuples).contains(text) <==> blocks_of(tuples).contains(text),
        forall|text: Seq<char>|
            sink_after(v, tuples).seen.contains(text) <==> written(v, tuples).contains(text),
        sink_after(v, tuples).deduplicate,
    decreases tuples.len(),
{
    if tuples.len() > 0 {
        let rest = tuples.drop_last();
        deduplicating_sink_writes_each_block_once(v, rest);
        assert(blocks_of(tuples).drop_last() =~= blocks_of(rest));
        let before = written(v, rest);
        let text = block(tuples.last());
        assert(blocks_of(tuples).last() == text);
        assert(sink_after(v, rest).seen.contains(text) <==> before.contains(text));
        let all = written(v, tuples);
        assert forall|t: Seq<char>| sink_after(v, tuples).seen.contains(t) <==> all.contains(
            t,
        ) by {
            if before.contains(t) {
                let k = choose|k: int| 0 <= k < before.len() && before[k] == t;
                assert(all[k] == t);
            }
            if all.contains(t) && t != text {
                let k = choose|k: int| 0 <= k < all.len() && all[k] == t;
                assert(before[k] == t);
            }
            if t == text && !before.contains(text) {
                assert(all[before.len() as int] == t);
            }
        }
    }
    lemma_first_occurrences(blocks_of(tuples));
}

/// The operator that hands what is to be written to a writer.
pub struct WriterSink {
    node_id: String,
    deduplicate: bool,
    seen: TextSet,
}

impl WriterSink {
    pub closed spec fn view(&self) -> SinkView {
        SinkView { id: self.node_id@, deduplicate: self.deduplicate, seen: self.seen@ }
    }

    /// A sink that has written nothing yet.
    pub fn new(node_id: &usize, deduplicate: bool) -> (r: Self)
        ensures
            r@ == (SinkView { id: decimal(*node_id as nat), deduplicate, seen: Set::empty() }),
    {
        WriterSink { node_id: decimal_string(*node_id), deduplicate, seen: TextSet::new() }
    }

    /// Takes the next tuple of the input and gives the text to write for it, or nothing
    /// where the sink drops duplicates and has written the same text before.
    pub fn on_tuple(&mut self, tuple: &[String]) -> (out: Option<String>)
        ensures
            final(self)@ == sink_step(old(self)@, texts(tuple@)).0,
            match sink_step(old(self)@, texts(tuple@)).1 {
                Some(text) => out is Some && out->Some_0@ == text,
                None => out is None,
            },
    {
        let data_to_write = block_of(tuple);
        if self.deduplicate {
            if !self.seen.insert(data_to_write.clone()) {
                assert(self.seen@ =~= old(self).seen@);
                return None;
            }
        }
        Some(data_to_write)
    }

    /// The status with which a sink ends: the code 0 and no message.
    pub fn status(&self) -> (r: (u8, String))
        ensures
            r.0 == 0,
            r.1@ == Seq::<char>::empty(),
    {
        (0, String::new())
    }
}

/// The text that a sink writes for a tuple.
pub fn block_of(tuple: &[String]) -> (r: String)
    ensures
        r@ == block(texts(tuple@)),
{
    let mut out = String::new();
    let ghost items = payload(texts(tuple@));
    if tuple.len() > 0 {
        let mut i: usize = 1;
        assert(items.take(0) =~= Seq::empty());
        while i < tuple.len()
            invariant
                1 <= i <= tuple.len(),
                items == texts(tuple@).skip(1),
                out@ == joined(items.take(i - 1)),
            decreases tuple.len() - i,
        {
            proof {
                assert(items.take(i as int).drop_last() =~= items.take(i - 1));
                assert(items.take(i as int).last() == tuple@[i as int]@);
                if i == 1 {
                    assert(items.take(1)[0] == tuple@[1]@);
                }
            }
            if i > 1 {
                out.push('\n');
            }
            out.append(tuple[i].as_str());
            assert(out@ =~= joined(items.take(i as int)));
            i += 1;
        }
        assert(items.take(i - 1) =~= items);
    }
    out.push('\n');
    out
}

} // verus!
