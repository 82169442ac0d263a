use vstd::prelude::*;
use vstd::string::StringExecFns;
use crate::error::GeneralError;
use crate::text::{chars_of, string_of};
use crate::util::{opt_text, remove_join_alias_prefix, strip_alias};

verus! {

/// Why a template is rejected.
pub enum TemplateFault {
    /// An unescaped `{` inside a variable segment.
    NestedOpen,
    /// An unescaped `}` outside a variable segment.
    StrayClose,
    /// A backslash before a character other than `{`, `}` and `\`.
    NeedlessEscape(char),
    /// The template ends inside a variable segment.
    Unclosed,
    /// The template ends with a single backslash.
    DanglingEscape,
}

/// A part of a template: whether it names a variable, and its text.
pub type Part = (bool, Seq<char>);

/// What the scanner knows after reading a prefix of a template.
pub struct Scan {
    /// The parts completed so far.
    pub parts: Seq<Part>,
    /// The text gathered for the part being read.
    pub current: Seq<char>,
    /// Whether the scanner is between `{` and `}`.
    pub in_variable: bool,
    /// Whether the previous character was an unescaped backslash.
    pub escape: bool,
}

/// The parts once the text gathered so far is closed: a literal part, or a variable name
/// with the alias prefix taken off. Empty text gives no part.
pub open spec fn flushed(st: Scan, alias: Option<Seq<char>>) -> Seq<Part> {
    if st.current.len() == 0 {
        st.parts
    } else if st.in_variable {
        st.parts.push((true, strip_alias(st.current, alias)))
    } else {
        st.parts.push((false, st.current))
    }
}

/// The scanner's state after one more character.
pub open spec fn scan_step(st: Scan, c: char, alias: Option<Seq<char>>) -> Result<
    Scan,
    TemplateFault,
> {
    if st.escape {
        if c == '{' || c == '}' || c == '\\' {
            Ok(Scan { current: st.current.push(c), escape: false, ..st })
        } else {
            Err(TemplateFault::NeedlessEscape(c))
        }
    } else if c == '\\' {
        Ok(Scan { escape: true, ..st })
    } else if c == '{' {
        if st.in_variable {
            Err(TemplateFault::NestedOpen)
        } else {
            Ok(
                Scan {
                    parts: flushed(st, alias),
                    current: Seq::empty(),
                    in_variable: true,
                    escape: false,
                },
            )
        }
    } else if c == '}' {
        if st.in_variable {
            Ok(
                Scan {
                    parts: flushed(st, alias),
                    current: Seq::empty(),
                    in_variable: false,
                    escape: false,
                },
            )
        } else {
            Err(TemplateFault::StrayClose)
        }
    } else {
        Ok(Scan { current: st.current.push(c), ..st })
    }
}

/// The scanner's state after reading all of `t`, or the first fault met.
pub open spec fn scan(t: Seq<char>, alias: Option<Seq<char>>) -> Result<Scan, TemplateFault>
    decreases t.len(),
{
    if t.len() == 0 {
        Ok(Scan { parts: Seq::empty(), current: Seq::empty(), in_variable: false, escape: false })
    } else {
        match scan(t.drop_last(), alias) {
            Ok(st) => scan_step(st, t.last(), alias),
            Err(f) => Err(f),
        }
    }
}

/// The parts of a template, or the reason why it is rejected.
pub open spec fn parsed_template(t: Seq<char>, alias: Option<Seq<char>>) -> Result<
    Seq<Part>,
    TemplateFault,
> {
    match scan(t, alias) {
        Err(f) => Err(f),
        Ok(st) => if st.in_variable {
            Err(TemplateFault::Unclosed)
        } else if st.escape {
            Err(TemplateFault::DanglingEscape)
        } else {
            Ok(flushed(st, alias))
        },
    }
}

/// The text of the failure reported for a rejected template.
pub open spec fn fault_message(t: Seq<char>, f: TemplateFault) -> Seq<char> {
    let head = "Error parsing template '"@ + t + "': "@;
    match f {
        TemplateFault::NestedOpen => head + "Unescaped '{' found between {}."@,
        TemplateFault::StrayClose => head + "Unescaped '}' found between {}."@,
        TemplateFault::NeedlessEscape(c) => head + "character '"@.push(c)
            + "' is being escaped, but it doesn't need escaping."@,
        TemplateFault::Unclosed => head + "missing '}'"@,
        TemplateFault::DanglingEscape => head + "expecting character to escape after final '\\'"@,
    }
}

/// The parts held by a list of pairs of flag and string.
pub open spec fn parts_of(v: Seq<(bool, String)>) -> Seq<Part> {
    Seq::new(v.len(), |i: int| (v[i].0, v[i].1@))
}

fn fault_error(template: &str, f: TemplateFault) -> (e: GeneralError)
    ensures
        e@ == seq![(1u8, fault_message(template@, f))],
{
    let mut msg = String::from_str("Error parsing template '");
    msg.append(template);
    msg.append("': ");
    match f {
        TemplateFault::NestedOpen => {
            msg.append("Unescaped '{' found between {}.");
        },
        TemplateFault::StrayClose => {
            msg.append("Unescaped '}' found between {}.");
        },
        TemplateFault::NeedlessEscape(c) => {
            let mut tail = String::from_str("character '");
            tail.push(c);
            msg.append(tail.as_str());
            msg.append("' is being escaped, but it doesn't need escaping.");
        },
        TemplateFault::Unclosed => {
            msg.append("missing '}'");
        },
        TemplateFault::DanglingEscape => {
            msg.append("expecting character to escape after final '\\'");
        },
    }
    GeneralError::from_msg(msg)
}

/// Splits a template into literal parts and variable parts.
///
/// `{` opens a variable, `}` closes it, and a backslash escapes one of `{`, `}` and `\`.
/// Empty parts are dropped. A variable name loses a leading `<alias>_`.
pub fn parse_template(template: &str, join_alias: &Option<String>) -> (r: Result<
    Vec<(bool, String)>,
    GeneralError,
>)
    ensures
        match parsed_template(template@, opt_text(*join_alias)) {
            Ok(parts) => r is Ok && parts_of(r->Ok_0@) == parts,
            Err(f) => r is Err && r->Err_0@ == seq![(1u8, fault_message(template@, f))],
        },
{
    let ghost alias = opt_text(*join_alias);
    let chars = chars_of(template);
    let mut parts: Vec<(bool, String)> = Vec::new();
    let mut current: Vec<char> = Vec::new();
    let mut in_variable = false;
    let mut escape = false;
    let mut i: usize = 0;
    assert(parts_of(parts@) =~= Seq::empty());
    assert(chars@.take(0) =~= Seq::empty());
    while i < chars.len()
        invariant
            i <= chars.len(),
            chars@ == template@,
            alias == opt_text(*join_alias),
            scan(chars@.take(i as int), alias) == Ok::<Scan, TemplateFault>(
                Scan { parts: parts_of(parts@), current: current@, in_variable, escape },
            ),
        decreases chars.len() - i,
    {
        let c = chars[i];
        let ghost before = Scan { parts: parts_of(parts@), current: current@, in_variable, escape };
        proof {
            let next = chars@.take(i + 1);
            assert(next.drop_last() =~= chars@.take(i as int));
            assert(next.last() == c);
            assert(scan(next, alias) == scan_step(before, c, alias));
            if scan_step(before, c, alias) is Err {
                lemma_fault_is_final(chars@, i + 1, alias);
            }
        }
        if escape {
            if c == '{' || c == '}' || c == '\\' {
                current.push(c);
                escape = false;
            } else {
                return Err(fault_error(template, TemplateFault::NeedlessEscape(c)));
            }
        } else if c == '\\' {
            escape = true;
        } else if c == '{' {
            if in_variable {
                return Err(fault_error(template, TemplateFault::NestedOpen));
            }
            if current.len() > 0 {
                let text = string_of(&current, 0, current.len());
                assert(text@ =~= current@);
                parts.push((false, text));
                current = Vec::new();
            }
            assert(parts_of(parts@) =~= flushed(before, alias));
            in_variable = true;
        } else if c == '}' {
            if !in_variable {
                return Err(fault_error(template, TemplateFault::StrayClose));
            }
            if current.len() > 0 {
                let text = string_of(&current, 0, current.len());
                assert(text@ =~= current@);
                let name = remove_join_alias_prefix(text.as_str(), join_alias);
                parts.push((true, name));
                current = Vec::new();
            }
            assert(parts_of(parts@) =~= flushed(before, alias));
            in_variable = false;
        } else {
            current.push(c);
        }
        i += 1;
    }
    assert(chars@.take(i as int) =~= chars@);
    if in_variable {
        return Err(fault_error(template, TemplateFault::Unclosed));
    }
    if escape {
        return Err(fault_error(template, TemplateFault::DanglingEscape));
    }
    let ghost last = Scan { parts: parts_of(parts@), current: current@, in_variable, escape };
    if current.len() > 0 {
        let text = string_of(&current, 0, current.len());
        assert(text@ =~= current@);
        parts.push((false, text));
    }
    assert(parts_of(parts@) =~= flushed(last, alias));
    Ok(parts)
}

/// A fault met in a prefix of a template is the fault of the whole template.
pub proof fn lemma_fault_is_final(t: Seq<char>, n: int, alias: Option<Seq<char>>)
    requires
        0 <= n <= t.len(),
        scan(t.take(n), alias) is Err,
    ensures
        scan(t, alias) == scan(t.take(n), alias),
    decreases t.len() - n,
{
    if n < t.len() {
        assert(t.take(n + 1).drop_last() =~= t.take(n));
        lemma_fault_is_final(t, n + 1, alias);
    } else {
        assert(t.take(n) =~= t);
    }
}

/// Whether a template without escapes ends inside a variable segment.
pub open spec fn in_segment(t: Seq<char>) -> bool
    decreases t.len(),
{
    if t.len() == 0 {
        false
    } else if t.last() == '{' {
        true
    } else if t.last() == '}' {
        false
    } else {
        in_segment(t.drop_last())
    }
}

/// A template without escapes, with every segment from `{` to `}` taken out.
pub open spec fn without_segments(t: Seq<char>) -> Seq<char>
    decreases t.len(),
{
    if t.len() == 0 {
        Seq::empty()
    } else if t.last() == '{' || t.last() == '}' || in_segment(t.drop_last()) {
        without_segments(t.drop_last())
    } else {
        without_segments(t.drop_last()).push(t.last())
    }
}

/// The texts of the literal parts, joined in order.
pub open spec fn literal_text(parts: Seq<Part>) -> Seq<char>
    decreases parts.len(),
{
    if parts.len() == 0 {
        Seq::empty()
    } else if parts.last().0 {
        literal_text(parts.drop_last())
    } else {
        literal_text(parts.drop_last()) + parts.last().1
    }
}

proof fn lemma_scan_outside_segments(t: Seq<char>, alias: Option<Seq<char>>)
    requires
        !t.contains('\\'),
        scan(t, alias) is Ok,
    ensures
        ({
            let st = scan(t, alias)->Ok_0;
            &&& !st.escape
            &&& st.in_variable == in_segment(t)
            &&& without_segments(t) == literal_text(st.parts) + (if st.in_variable {
                Seq::empty()
            } else {
                st.current
            })
        }),
    decreases t.len(),
{
    if t.len() > 0 {
        let p = t.drop_last();
        let c = t.last();
        assert(c == t[t.len() - 1]);
        assert(c != '\\');
        assert forall|x: char| p.contains(x) implies t.contains(x) by {
            let j = choose|j: int| 0 <= j < p.len() && p[j] == x;
            assert(t[j] == x);
        }
        lemma_scan_outside_segments(p, alias);
        let st = scan(p, alias)->Ok_0;
        let nx = scan(t, alias)->Ok_0;
        let lit = literal_text(st.parts);
        if c == '{' || c == '}' {
            let fl = flushed(st, alias);
            if st.current.len() > 0 {
                assert(fl.drop_last() =~= st.parts);
            }
            assert(literal_text(fl) =~= lit + (if st.in_variable {
                Seq::empty()
            } else {
                st.current
            }));
            assert(literal_text(nx.parts) + Seq::<char>::empty() =~= literal_text(nx.parts));
        } else if st.in_variable {
            assert(lit + Seq::<char>::empty() =~= lit);
        } else {
            assert((lit + st.current).push(c) =~= lit + st.current.push(c));
        }
    } else {
        assert(literal_text(Seq::<Part>::empty()) + Seq::<char>::empty() =~= Seq::<char>::empty());
    }
}

/// For a template without backslashes that the parser accepts, the literal parts joined in
/// order are the template with every `{...}` segment taken out.
pub proof fn literal_parts_are_text_outside_segments(t: Seq<char>, alias: Option<Seq<char>>)
    requires
        !t.contains('\\'),
        parsed_template(t, alias) is Ok,
    ensures
        literal_text(parsed_template(t, alias)->Ok_0) == without_segments(t),
{
    lemma_scan_outside_segments(t, alias);
    let st = scan(t, alias)->Ok_0;
    let fl = flushed(st, alias);
    if st.current.len() > 0 {
        assert(fl.drop_last() =~= st.parts);
    } else {
        assert(literal_text(st.parts) + st.current =~= literal_text(st.parts));
    }
}

} // verus!
