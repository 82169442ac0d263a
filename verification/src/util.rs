use vstd::prelude::*;
use crate::text::{chars_of, string_of};

verus! {

/// The prefix that marks an attribute as coming through the join named `alias`.
pub open spec fn alias_prefix(alias: Seq<char>) -> Seq<char> {
    alias.push('_')
}

/// The text of an optional string.
pub open spec fn opt_text(s: Option<String>) -> Option<Seq<char>> {
    match s {
        Some(a) => Some(a@),
        None => None,
    }
}

/// `name` without the leading `<alias>_`, where an alias is given and `name` starts with it.
pub open spec fn strip_alias(name: Seq<char>, alias: Option<Seq<char>>) -> Seq<char> {
    match alias {
        Some(a) => if alias_prefix(a).is_prefix_of(name) {
            name.skip(a.len() as int + 1)
        } else {
            name
        },
        None => name,
    }
}

/// Tells whether `name` starts with `alias` followed by an underscore.
pub fn has_alias_prefix(name: &Vec<char>, alias: &Vec<char>) -> (b: bool)
    ensures
        b == alias_prefix(alias@).is_prefix_of(name@),
        b ==> alias.len() < name.len(),
{
    let n = alias.len();
    if name.len() <= n {
        return false;
    }
    let mut i: usize = 0;
    while i < n
        invariant
            i <= n,
            n == alias.len(),
            n < name.len(),
            forall|j: int| 0 <= j < i ==> name@[j] == alias@[j],
        decreases n - i,
    {
        if name[i] != alias[i] {
            proof {
                let p = alias_prefix(alias@);
                if p.is_prefix_of(name@) {
                    assert(p[i as int] == name@[i as int]);
                }
            }
            return false;
        }
        i += 1;
    }
    let b = name[n] == '_';
    proof {
        let p = alias_prefix(alias@);
        if b {
            assert(p =~= name@.subrange(0, p.len() as int));
        } else if p.is_prefix_of(name@) {
            assert(p[n as int] == name@[n as int]);
        }
    }
    b
}

/// Drops the prefix `<alias>_` from a variable name, if an alias is given and the name has it.
pub fn remove_join_alias_prefix(variable_name: &str, join_alias: &Option<String>) -> (r: String)
    ensures
        r@ == strip_alias(variable_name@, opt_text(*join_alias)),
{
    match join_alias {
        Some(alias) => {
            let name = chars_of(variable_name);
            let a = chars_of(alias.as_str());
            if has_alias_prefix(&name, &a) {
                let r = string_of(&name, a.len() + 1, name.len());
                assert(r@ =~= name@.skip(a@.len() as int + 1));
                r
            } else {
                variable_name.to_string()
            }
        },
        None => variable_name.to_string(),
    }
}

} // verus!
