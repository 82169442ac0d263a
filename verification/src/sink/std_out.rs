use vstd::prelude::*;
use vstd::string::StringExecFns;
use crate::text::{payload, texts};

verus! {

/// The texts, each with a line break after it.
pub open spec fn terminated(items: Seq<Seq<char>>) -> Seq<char>
    decreases items.len(),
{
    if items.len() == 0 {
        Seq::empty()
    } else {
        terminated(items.drop_last()) + items.last().push('\n')
    }
}

/// The operator that hands what is to be written to standard output.
pub struct StdOutSink {}

impl StdOutSink {
    pub fn new() -> (r: Self) {
        StdOutSink {  }
    }

    /// The text to write for a tuple: each element after the first, with a line break
    /// after it.
    pub fn on_tuple(&self, tuple: &[String]) -> (out: String)
        ensures
            out@ == terminated(payload(texts(tuple@))),
    {
        let mut out = String::new();
        let ghost items = payload(texts(tuple@));
        let mut i: usize = 1;
        assert(items.take(0) =~= Seq::empty());
        if tuple.len() == 0 {
            assert(items =~= Seq::empty());
            return out;
        }
        while i < tuple.len()
            invariant
                1 <= i <= tuple.len(),
                items == texts(tuple@).skip(1),
                out@ == terminated(items.take(i - 1)),
            decreases tuple.len() - i,
        {
            proof {
                assert(items.take(i as int).drop_last() =~= items.take(i - 1));
                assert(items.take(i as int).last() == tuple@[i as int]@);
            }
            out.append(tuple[i].as_str());
            out.push('\n');
            assert(out@ =~= terminated(items.take(i as int)));
            i += 1;
        }
        assert(items.take(i - 1) =~= items);
        out
    }
}

} // verus!
