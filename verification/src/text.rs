use vstd::prelude::*;
use vstd::std_specs::iter::IteratorSpec;

verus! {

/// `String::push` of the standard library: the character is added at the end.
pub assume_specification[ String::push ](s: &mut String, c: char)
    ensures
        final(s)@ == old(s)@.push(c),
;

/// The texts of a list of strings, in order.
pub open spec fn texts(v: Seq<String>) -> Seq<Seq<char>> {
    Seq::new(v.len(), |i: int| v[i]@)
}

/// The characters of a string slice, in order.
pub fn chars_of(s: &str) -> (v: Vec<char>)
    ensures
        v@ == s@,
{
    let mut v: Vec<char> = Vec::new();
    for c in it: s.chars()
        invariant
            v@ == it.seq().take(it.index() as int),
            it.seq() == s@,
    {
        v.push(c);
    }
    assert(v@ =~= s@);
    v
}

/// The string made of the characters `v[from..to]`.
pub fn string_of(v: &Vec<char>, from: usize, to: usize) -> (s: String)
    requires
        from <= to <= v.len(),
    ensures
        s@ == v@.subrange(from as int, to as int),
{
    let mut s = String::new();
    let mut i: usize = from;
    while i < to
        invariant
            from <= i <= to <= v.len(),
            s@ == v@.subrange(from as int, i as int),
        decreases to - i,
    {
        s.push(v[i]);
        assert(v@.subrange(from as int, i as int).push(v@[i as int]) =~= v@.subrange(
            from as int,
            i + 1,
        ));
        i += 1;
    }
    s
}

/// A copy of a list of strings.
pub fn copy_strings(a: &[String]) -> (r: Vec<String>)
    ensures
        texts(r@) == texts(a@),
{
    let mut out: Vec<String> = Vec::new();
    let mut i: usize = 0;
    while i < a.len()
        invariant
            i <= a.len(),
            out.len() == i,
            forall|j: int| 0 <= j < i ==> out@[j]@ == a@[j]@,
        decreases a.len() - i,
    {
        out.push(a[i].clone());
        i += 1;
    }
    assert(texts(out@) =~= texts(a@));
    out
}

/// The decimal digit for a value below ten.
pub open spec fn digit_char(d: nat) -> char {
    if d == 0 {
        '0'
    } else if d == 1 {
        '1'
    } else if d == 2 {
        '2'
    } else if d == 3 {
        '3'
    } else if d == 4 {
        '4'
    } else if d == 5 {
        '5'
    } else if d == 6 {
        '6'
    } else if d == 7 {
        '7'
    } else if d == 8 {
        '8'
    } else {
        '9'
    }
}

/// The decimal notation of a number, without leading zeros.
pub open spec fn decimal(n: nat) -> Seq<char>
    decreases n,
{
    if n < 10 {
        seq![digit_char(n)]
    } else {
        decimal(n / 10).push(digit_char(n % 10))
    }
}

fn digit_of(d: usize) -> (c: char)
    requires
        d < 10,
    ensures
        c == digit_char(d as nat),
{
    if d == 0 {
        '0'
    } else if d == 1 {
        '1'
    } else if d == 2 {
        '2'
    } else if d == 3 {
        '3'
    } else if d == 4 {
        '4'
    } else if d == 5 {
        '5'
    } else if d == 6 {
        '6'
    } else if d == 7 {
        '7'
    } else if d == 8 {
        '8'
    } else {
        '9'
    }
}

/// The decimal notation of `n` as a string.
pub fn decimal_string(n: usize) -> (s: String)
    ensures
        s@ == decimal(n as nat),
{
    let mut digits: Vec<char> = Vec::new();
    let mut rest: usize = n;
    while rest >= 10
        invariant
            decimal(n as nat) == decimal(rest as nat) + digits@.reverse(),
        decreases rest,
    {
        let d = digit_of(rest % 10);
        proof {
            let r = rest as nat;
            assert(decimal(r) == decimal(r / 10).push(digit_char(r % 10)));
            assert(decimal(r / 10).push(d) + digits@.reverse() =~= decimal(r / 10)
                + digits@.push(d).reverse());
        }
        digits.push(d);
        rest = rest / 10;
    }
    let mut s = String::new();
    s.push(digit_of(rest));
    let mut i: usize = digits.len();
    while i > 0
        invariant
            i <= digits.len(),
            s@ == decimal(rest as nat) + digits@.reverse().take(digits.len() - i),
        decreases i,
    {
        i -= 1;
        s.push(digits[i]);
        assert(digits@.reverse().take(digits.len() - i) =~= digits@.reverse().take(
            digits.len() - i - 1,
        ).push(digits@[i as int]));
    }
    assert(digits@.reverse().take(digits.len() as int) =~= digits@.reverse());
    s
}

/// The first place at which `name` stands in `names`, if it stands there at all.
pub open spec fn position(names: Seq<Seq<char>>, name: Seq<char>) -> Option<int>
    decreases names.len(),
{
    if names.len() == 0 {
        None
    } else {
        match position(names.drop_last(), name) {
            Some(i) => Some(i),
            None => if names.last() == name {
                Some(names.len() - 1)
            } else {
                None
            },
        }
    }
}

/// `position` gives the least index that holds the name, and none only if no index does.
pub proof fn lemma_position(names: Seq<Seq<char>>, name: Seq<char>)
    ensures
        match position(names, name) {
            Some(i) => 0 <= i < names.len() && names[i] == name && forall|j: int|
                0 <= j < i ==> names[j] != name,
            None => !names.contains(name),
        },
    decreases names.len(),
{
    if names.len() > 0 {
        lemma_position(names.drop_last(), name);
        let p = names.drop_last();
        match position(p, name) {
            Some(i) => {
                assert(p[i] == names[i]);
                assert forall|j: int| 0 <= j < i implies names[j] != name by {
                    assert(p[j] == names[j]);
                }
            },
            None => {
                assert forall|j: int| 0 <= j < names.len() - 1 implies names[j] != name by {
                    assert(p[j] == names[j]);
                    assert(p.contains(p[j]));
                }
            },
        }
    }
}

/// A position found in a prefix is the position in the whole list.
pub proof fn lemma_position_prefix(names: Seq<Seq<char>>, name: Seq<char>, n: int)
    requires
        0 <= n <= names.len(),
        position(names.take(n), name) is Some,
    ensures
        position(names, name) == position(names.take(n), name),
    decreases names.len() - n,
{
    if n < names.len() {
        assert(names.take(n + 1).drop_last() =~= names.take(n));
        lemma_position_prefix(names, name, n + 1);
    } else {
        assert(names.take(n) =~= names);
    }
}

/// Finds the first string of `names` that equals `name`.
pub fn find_text(names: &[String], name: &str) -> (r: Option<usize>)
    ensures
        match r {
            Some(k) => position(texts(names@), name@) == Some(k as int),
            None => position(texts(names@), name@) is None,
        },
{
    let mut i: usize = 0;
    assert(texts(names@).take(0) =~= Seq::empty());
    while i < names.len()
        invariant
            i <= names.len(),
            position(texts(names@).take(i as int), name@) is None,
        decreases names.len() - i,
    {
        let ghost all = texts(names@);
        assert(all.take(i + 1).drop_last() =~= all.take(i as int));
        if same_text(names[i].as_str(), name) {
            proof {
                lemma_position_prefix(all, name@, i + 1);
            }
            return Some(i);
        }
        i += 1;
    }
    assert(texts(names@).take(i as int) =~= texts(names@));
    None
}

/// Tells whether two string slices hold the same text.
pub fn same_text(a: &str, b: &str) -> (r: bool)
    ensures
        r == (a@ == b@),
{
    let mut x = a.chars();
    let mut y = b.chars();
    let ghost mut n: int = 0;
    loop
        invariant
            0 <= n <= a@.len(),
            n <= b@.len(),
            x.remaining() == a@.skip(n),
            y.remaining() == b@.skip(n),
            a@.take(n) == b@.take(n),
        decreases a@.len() - n,
    {
        let p = x.next();
        let q = y.next();
        match (p, q) {
            (None, None) => {
                assert(a@ =~= a@.take(n));
                assert(b@ =~= b@.take(n));
                return true;
            },
            (Some(c), Some(d)) => {
                if c != d {
                    assert(a@[n] != b@[n]);
                    return false;
                }
                proof {
                    assert(a@.take(n + 1) =~= a@.take(n).push(a@[n]));
                    assert(b@.take(n + 1) =~= b@.take(n).push(b@[n]));
                    assert(a@.skip(n).drop_first() =~= a@.skip(n + 1));
                    assert(b@.skip(n).drop_first() =~= b@.skip(n + 1));
                    n = n + 1;
                }
            },
            _ => {
                assert(a@.len() != b@.len());
                return false;
            },
        }
    }
}

/// The last place at which `name` stands in `names`, if it stands there at all.
pub open spec fn last_position(names: Seq<Seq<char>>, name: Seq<char>) -> Option<int>
    decreases names.len(),
{
    if names.len() == 0 {
        None
    } else if names.last() == name {
        Some(names.len() - 1)
    } else {
        last_position(names.drop_last(), name)
    }
}

/// Finds the last of the first `limit` strings of `names` that equals `name`.
pub fn find_last_text(names: &[String], limit: usize, name: &str) -> (r: Option<usize>)
    requires
        limit <= names@.len(),
    ensures
        match r {
            Some(k) => last_position(texts(names@).take(limit as int), name@) == Some(k as int) && k
                < limit,
            None => last_position(texts(names@).take(limit as int), name@) is None,
        },
{
    let ghost all = texts(names@).take(limit as int);
    let mut i: usize = limit;
    assert(all.take(limit as int) =~= all);
    while i > 0
        invariant
            i <= limit <= names@.len(),
            all == texts(names@).take(limit as int),
            last_position(all, name@) == last_position(all.take(i as int), name@),
        decreases i,
    {
        i -= 1;
        assert(all.take(i + 1).drop_last() =~= all.take(i as int));
        assert(all.take(i + 1).last() == names@[i as int]@);
        if same_text(names[i].as_str(), name) {
            return Some(i);
        }
    }
    None
}

/// A tuple without its first element, the identifier of the node that sent it.
pub open spec fn payload(tuple: Seq<Seq<char>>) -> Seq<Seq<char>> {
    if tuple.len() > 0 {
        tuple.skip(1)
    } else {
        tuple
    }
}

/// A copy of a tuple without its first element.
pub fn payload_of(tuple: &[String]) -> (r: Vec<String>)
    ensures
        texts(r@) == payload(texts(tuple@)),
{
    let mut out: Vec<String> = Vec::new();
    let mut i: usize = 1;
    while i < tuple.len()
        invariant
            1 <= i,
            i <= tuple.len() || tuple.len() == 0,
            tuple.len() > 0 ==> texts(out@) == texts(tuple@).subrange(1, i as int),
            tuple.len() == 0 ==> out@.len() == 0,
        decreases tuple.len() - i,
    {
        let ghost before = texts(out@);
        out.push(tuple[i].clone());
        assert(texts(out@) =~= before.push(texts(tuple@)[i as int]));
        assert(texts(out@) =~= texts(tuple@).subrange(1, i + 1));
        i += 1;
    }
    assert(texts(out@) =~= payload(texts(tuple@)));
    out
}

/// The places as numbers.
pub open spec fn places(v: Seq<usize>) -> Seq<int> {
    Seq::new(v.len(), |i: int| v[i] as int)
}

} // verus!
