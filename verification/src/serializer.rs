use vstd::prelude::*;
use vstd::string::StringExecFns;
use crate::function::template_parser::{parts_of, Part};
use crate::schema::{DataFormat, Serializer};
use crate::text::{
    chars_of, decimal, decimal_string, find_last_text, last_position, payload, payload_of,
    same_text, string_of, texts,
};

verus! {

/// What the scanner of a statement template knows after reading a prefix of it.
pub struct PatternScan {
    /// The parts completed so far.
    pub parts: Seq<Part>,
    /// The text gathered for the part being read.
    pub current: Seq<char>,
    /// Whether the scanner is inside a variable name.
    pub in_variable: bool,
}

/// The parts with the text gathered so far added as a part, unless it is empty.
pub open spec fn closed_part(st: PatternScan) -> Seq<Part> {
    if st.current.len() == 0 {
        st.parts
    } else {
        st.parts.push((st.in_variable, st.current))
    }
}

/// The scanner's state after one more character: `?` begins a variable name, a space ends
/// it and belongs to the text that follows.
pub open spec fn pattern_step(st: PatternScan, c: char) -> PatternScan {
    if c == '?' {
        if st.in_variable {
            st
        } else {
            PatternScan { parts: closed_part(st), current: Seq::empty(), in_variable: true }
        }
    } else if c == ' ' {
        if st.in_variable {
            PatternScan { parts: closed_part(st), current: seq![' '], in_variable: false }
        } else {
            PatternScan { current: st.current.push(' '), ..st }
        }
    } else {
        PatternScan { current: st.current.push(c), ..st }
    }
}

/// The scanner's state after reading all of `t`.
pub open spec fn pattern_scan(t: Seq<char>) -> PatternScan
    decreases t.len(),
{
    if t.len() == 0 {
        PatternScan { parts: Seq::empty(), current: Seq::empty(), in_variable: false }
    } else {
        pattern_step(pattern_scan(t.drop_last()), t.last())
    }
}

/// The parts of a statement template. What is left at the end is text, also where it
/// began as a variable name.
pub open spec fn pattern_parts(t: Seq<char>) -> Seq<Part> {
    let st = pattern_scan(t);
    if st.current.len() == 0 {
        st.parts
    } else {
        st.parts.push((false, st.current))
    }
}

/// Splits a statement template into text parts and variable parts.
pub fn create_template_template_string_parts(template: &str) -> (r: Vec<(bool, String)>)
    ensures
        parts_of(r@) == pattern_parts(template@),
{
    let chars = chars_of(template);
    let mut parts: Vec<(bool, String)> = Vec::new();
    let mut current: Vec<char> = Vec::new();
    let mut is_variable_name = false;
    let mut i: usize = 0;
    assert(parts_of(parts@) =~= Seq::empty());
    assert(chars@.take(0) =~= Seq::empty());
    while i < chars.len()
        invariant
            i <= chars.len(),
            chars@ == template@,
            pattern_scan(chars@.take(i as int)) == (PatternScan {
                parts: parts_of(parts@),
                current: current@,
                in_variable: is_variable_name,
            }),
        decreases chars.len() - i,
    {
        let c = chars[i];
        let ghost before = PatternScan {
            parts: parts_of(parts@),
            current: current@,
            in_variable: is_variable_name,
        };
        proof {
            assert(chars@.take(i + 1).drop_last() =~= chars@.take(i as int));
            assert(chars@.take(i + 1).last() == c);
        }
        if c == '?' {
            if !is_variable_name {
                if current.len() > 0 {
                    let text = string_of(&current, 0, current.len());
                    assert(text@ =~= current@);
                    parts.push((false, text));
                    current = Vec::new();
                }
                assert(parts_of(parts@) =~= closed_part(before));
                is_variable_name = true;
            }
        } else if c == ' ' {
            if is_variable_name {
                if current.len() > 0 {
                    let text = string_of(&current, 0, current.len());
                    assert(text@ =~= current@);
                    parts.push((true, text));
                    current = Vec::new();
                }
                assert(parts_of(parts@) =~= closed_part(before));
                is_variable_name = false;
            }
            current.push(' ');
            assert(current@ =~= pattern_step(before, c).current);
        } else {
            current.push(c);
        }
        i += 1;
    }
    assert(chars@.take(i as int) =~= chars@);
    let ghost last = parts_of(parts@);
    if current.len() > 0 {
        let text = string_of(&current, 0, current.len());
        assert(text@ =~= current@);
        parts.push((false, text));
        assert(parts_of(parts@) =~= last.push((false, current@)));
    }
    parts
}

/// A value as a statement shows it, by the tag of its type: an IRI between angle
/// brackets, a literal between double quotes, a blank node after `_:`; for the tag `str`
/// the tag itself. An unknown tag gives nothing.
pub open spec fn formatted(value: Seq<char>, tag: Seq<char>) -> Option<Seq<char>> {
    if tag == "str"@ {
        Some(tag)
    } else if tag == "iri"@ {
        Some(seq!['<'] + value + seq!['>'])
    } else if tag == "lit"@ {
        Some(seq!['"'] + value + seq!['"'])
    } else if tag == "blank"@ {
        Some(seq!['_', ':'] + value)
    } else {
        None
    }
}

/// What stands for a variable in a line: the value of the last column with its name,
/// formatted by the type of that column. Nothing if no column has the name or the type
/// is unknown.
pub open spec fn shown(
    name: Seq<char>,
    names: Seq<Seq<char>>,
    types: Seq<Seq<char>>,
    values: Seq<Seq<char>>,
) -> Option<Seq<char>> {
    match last_position(names.take(values.len() as int), name) {
        Some(i) => if i < types.len() {
            formatted(values[i], types[i])
        } else {
            None
        },
        None => None,
    }
}

/// Whether a line can be made of the values: there is a name and a type for each value,
/// and something to show for each variable.
pub open spec fn renders(
    parts: Seq<Part>,
    names: Seq<Seq<char>>,
    types: Seq<Seq<char>>,
    values: Seq<Seq<char>>,
) -> bool {
    &&& values.len() <= names.len()
    &&& values.len() <= types.len()
    &&& forall|k: int|
        0 <= k < parts.len() && (#[trigger] parts[k]).0 ==> shown(parts[k].1, names, types, values)
            is Some
}

/// The line for the values: the text parts as they are, and for each variable what
/// stands for it.
pub open spec fn line(
    parts: Seq<Part>,
    names: Seq<Seq<char>>,
    types: Seq<Seq<char>>,
    values: Seq<Seq<char>>,
) -> Seq<char>
    decreases parts.len(),
{
    if parts.len() == 0 {
        Seq::empty()
    } else {
        let head = line(parts.drop_last(), names, types, values);
        let part = parts.last();
        if part.0 {
            match shown(part.1, names, types, values) {
                Some(text) => head + text,
                None => head,
            }
        } else {
            head + part.1
        }
    }
}

/// What a serializer is at some moment: its identifier, the parts of its template, and
/// the names and the types of the columns once they have come.
pub struct SerializerView {
    pub id: Seq<char>,
    pub parts: Seq<Part>,
    pub names: Option<Seq<Seq<char>>>,
    pub types: Option<Seq<Seq<char>>>,
}

/// The operator that writes each tuple as one statement.
pub struct SerializeOperator {
    template_string_parts: Vec<(bool, String)>,
    node_id: String,
    variable_names: Option<Vec<String>>,
    data_types: Option<Vec<String>>,
}

/// The texts of an optional list of strings.
pub open spec fn known(v: Option<Vec<String>>) -> Option<Seq<Seq<char>>> {
    match v {
        Some(x) => Some(texts(x@)),
        None => None,
    }
}

/// Formats a value by the tag of its type; nothing for an unknown tag.
pub fn format_value(value: &str, tag: &str) -> (r: Option<String>)
    ensures
        match formatted(value@, tag@) {
            Some(text) => r is Some && r->Some_0@ == text,
            None => r is None,
        },
{
    if same_text(tag, "str") {
        Some(tag.to_string())
    } else if same_text(tag, "iri") {
        let mut s = String::new();
        s.push('<');
        s.append(value);
        s.push('>');
        assert(s@ =~= seq!['<'] + value@ + seq!['>']);
        Some(s)
    } else if same_text(tag, "lit") {
        let mut s = String::new();
        s.push('"');
        s.append(value);
        s.push('"');
        assert(s@ =~= seq!['"'] + value@ + seq!['"']);
        Some(s)
    } else if same_text(tag, "blank") {
        let mut s = String::new();
        s.push('_');
        s.push(':');
        s.append(value);
        assert(s@ =~= seq!['_', ':'] + value@);
        Some(s)
    } else {
        None
    }
}

impl SerializeOperator {
    pub closed spec fn view(&self) -> SerializerView {
        SerializerView {
            id: self.node_id@,
            parts: parts_of(self.template_string_parts@),
            names: known(self.variable_names),
            types: known(self.data_types),
        }
    }

    /// A serializer for N-Triples or N-Quads that has seen nothing yet.
    pub fn new(config: &Serializer, node_id: &usize) -> (r: Self)
        requires
            config.format == DataFormat::NQuads || config.format == DataFormat::NTriples,
        ensures
            r@ == (SerializerView {
                id: decimal(*node_id as nat),
                parts: pattern_parts(config.template@),
                names: None,
                types: None,
            }),
    {
        SerializeOperator {
            template_string_parts: create_template_template_string_parts(config.template.as_str()),
            node_id: decimal_string(*node_id),
            variable_names: None,
            data_types: None,
        }
    }

    /// What stands for the variable `name` in the line for `values`.
    fn show(&self, name: &str, values: &[String]) -> (r: Option<String>)
        requires
            self@.names is Some,
            self@.types is Some,
            values@.len() <= self@.names->Some_0.len(),
        ensures
            match shown(name@, self@.names->Some_0, self@.types->Some_0, texts(values@)) {
                Some(text) => r is Some && r->Some_0@ == text,
                None => r is None,
            },
    {
        match (&self.variable_names, &self.data_types) {
            (Some(names), Some(types)) => {
                match find_last_text(names.as_slice(), values.len(), name) {
                    Some(i) => {
                        if i < types.len() {
                            assert(texts(types@)[i as int] == types@[i as int]@);
                            assert(texts(values@)[i as int] == values@[i as int]@);
                            format_value(values[i].as_str(), types[i].as_str())
                        } else {
                            None
                        }
                    },
                    None => None,
                }
            },
            _ => None,
        }
    }

    /// Tells whether the names or the types of the columns are still to come.
    pub fn awaits_header(&self) -> (b: bool)
        ensures
            b == (self@.names is None || self@.types is None),
    {
        self.variable_names.is_none() || self.data_types.is_none()
    }

    /// Tells whether a line can be made of a data tuple.
    pub fn can_render(&self, tuple: &[String]) -> (b: bool)
        ensures
            b == (self@.names is Some && self@.types is Some && renders(
                self@.parts,
                self@.names->Some_0,
                self@.types->Some_0,
                payload(texts(tuple@)),
            )),
    {
        let values = payload_of(tuple);
        match (&self.variable_names, &self.data_types) {
            (Some(names), Some(types)) => {
                if values.len() > names.len() || values.len() > types.len() {
                    return false;
                }
                let ghost parts = parts_of(self.template_string_parts@);
                let mut k: usize = 0;
                while k < self.template_string_parts.len()
                    invariant
                        k <= self.template_string_parts.len(),
                        parts == parts_of(self.template_string_parts@),
                        self@.names == Some(texts(names@)),
                        self@.types == Some(texts(types@)),
                        values@.len() <= names@.len(),
                        texts(values@) == payload(texts(tuple@)),
                        forall|j: int|
                            0 <= j < k && (#[trigger] parts[j]).0 ==> shown(
                                parts[j].1,
                                texts(names@),
                                texts(types@),
                                texts(values@),
                            ) is Some,
                    decreases self.template_string_parts.len() - k,
                {
                    let part = &self.template_string_parts[k];
                    assert(parts[k as int] == (part.0, part.1@));
                    if part.0 {
                        if self.show(part.1.as_str(), values.as_slice()).is_none() {
                            assert(parts[k as int].0 && shown(
                                parts[k as int].1,
                                texts(names@),
                                texts(types@),
                                texts(values@),
                            ) is None);
                            return false;
                        }
                    }
                    k += 1;
                }
                true
            },
            _ => false,
        }
    }

    /// Takes the next tuple of the input. The first one gives the names of the columns and
    /// the second one their types; nothing is to be sent for them. Every later one is
    /// data: what is to be sent is the node's identifier and the line for the values.
    pub fn on_tuple(&mut self, tuple: &[String]) -> (out: Option<Vec<String>>)
        requires
            old(self)@.names is Some && old(self)@.types is Some ==> renders(
                old(self)@.parts,
                old(self)@.names->Some_0,
                old(self)@.types->Some_0,
                payload(texts(tuple@)),
            ),
        ensures
            final(self)@.id == old(self)@.id,
            final(self)@.parts == old(self)@.parts,
            old(self)@.names is None ==> out is None && final(self)@.names == Some(
                payload(texts(tuple@)),
            ) && final(self)@.types == old(self)@.types,
            old(self)@.names is Some && old(self)@.types is None ==> out is None
                && final(self)@.names == old(self)@.names && final(self)@.types == Some(
                payload(texts(tuple@)),
            ),
            old(self)@.names is Some && old(self)@.types is Some ==> final(self)@ == old(self)@
                && out is Some && texts(out->Some_0@) == seq![
                old(self)@.id,
                line(
                    old(self)@.parts,
                    old(self)@.names->Some_0,
                    old(self)@.types->Some_0,
                    payload(texts(tuple@)),
                ),
            ],
    {
        let values = payload_of(tuple);
        if self.variable_names.is_none() {
            self.variable_names = Some(values);
            return None;
        }
        if self.data_types.is_none() {
            self.data_types = Some(values);
            return None;
        }
        let ghost parts = self@.parts;
        let ghost names = self@.names->Some_0;
        let ghost types = self@.types->Some_0;
        let mut result_str = String::new();
        let mut k: usize = 0;
        assert(parts.take(0) =~= Seq::empty());
        while k < self.template_string_parts.len()
            invariant
                k <= self.template_string_parts.len(),
                self@ == old(self)@,
                parts == self@.parts,
                self@.names == Some(names),
                self@.types == Some(types),
                texts(values@) == payload(texts(tuple@)),
                renders(parts, names, types, texts(values@)),
                result_str@ == line(parts.take(k as int), names, types, texts(values@)),
            decreases self.template_string_parts.len() - k,
        {
            let part = &self.template_string_parts[k];
            proof {
                assert(parts.take(k + 1).drop_last() =~= parts.take(k as int));
                assert(parts.take(k + 1).last() == parts[k as int]);
                assert(parts[k as int] == (part.0, part.1@));
            }
            if part.0 {
                if let Some(text) = self.show(part.1.as_str(), values.as_slice()) {
                    result_str.append(text.as_str());
                }
            } else {
                result_str.append(part.1.as_str());
            }
            k += 1;
        }
        assert(parts.take(k as int) =~= parts);
        let mut out: Vec<String> = Vec::new();
        out.push(self.node_id.clone());
        out.push(result_str);
        assert(texts(out@) =~= seq![self@.id, result_str@]);
        Some(out)
    }
}

} // verus!
