use vstd::prelude::*;
use crate::function::iri::{is_iri, is_iri_reference};
use crate::function::template_parser::Part;
use crate::function::uri_encode::uri_encoded;
use crate::text::{last_position, position, texts};

verus! {

/// How a serializer is to render a value.
#[derive(Clone, Copy, Debug, PartialEq, Eq, Structural)]
pub enum ResultType {
    Str,
    Iri,
    Lit,
    Blank,
}

/// The tag that stands for a result type in a tuple of types.
pub open spec fn type_tag(t: ResultType) -> Seq<char> {
    match t {
        ResultType::Str => "str"@,
        ResultType::Iri => "iri"@,
        ResultType::Lit => "lit"@,
        ResultType::Blank => "blank"@,
    }
}

/// What an expression is: its kind, what it was made with and what it has bound.
pub enum Expr {
    /// Always the same value.
    Constant(Seq<char>),
    /// The value of one column: the name and the index bound to it.
    Reference(Seq<char>, int),
    /// A template over the columns: its parts and the column names bound.
    TemplateString(Seq<Part>, Seq<Seq<char>>),
    /// A template over named expressions: its parts and the expressions by name.
    TemplateFunctionValue(Seq<Part>, Seq<(Seq<char>, Expr)>),
    /// An IRI made of the inner values, with an optional base.
    Iri(Option<Seq<char>>, Box<Expr>),
    Literal(Box<Expr>),
    BlankNode(Box<Expr>),
    UriEncode(Box<Expr>),
}

/// The expression once it has seen the header `names`.
pub open spec fn bound(e: Expr, names: Seq<Seq<char>>) -> Expr
    decreases e,
{
    match e {
        Expr::Constant(v) => e,
        Expr::Reference(name, _) => Expr::Reference(
            name,
            match position(names, name) {
                Some(i) => i,
                None => 0,
            },
        ),
        Expr::TemplateString(parts, _) => Expr::TemplateString(parts, names),
        Expr::TemplateFunctionValue(parts, subs) => Expr::TemplateFunctionValue(
            parts,
            Seq::new(
                subs.len(),
                |i: int|
                    if 0 <= i < subs.len() {
                        (subs[i].0, bound(subs[i].1, names))
                    } else {
                        (Seq::empty(), Expr::Constant(Seq::empty()))
                    },
            ),
        ),
        Expr::Iri(base, inner) => Expr::Iri(base, Box::new(bound(*inner, names))),
        Expr::Literal(inner) => Expr::Literal(Box::new(bound(*inner, names))),
        Expr::BlankNode(inner) => Expr::BlankNode(Box::new(bound(*inner, names))),
        Expr::UriEncode(inner) => Expr::UriEncode(Box::new(bound(*inner, names))),
    }
}

/// The result type of an expression.
pub open spec fn type_of(e: Expr) -> ResultType {
    match e {
        Expr::Iri(..) => ResultType::Iri,
        Expr::Literal(..) => ResultType::Lit,
        Expr::BlankNode(..) => ResultType::Blank,
        _ => ResultType::Str,
    }
}

/// The names of the sub-expressions, in order.
pub open spec fn sub_names(subs: Seq<(Seq<char>, Expr)>) -> Seq<Seq<char>> {
    Seq::new(subs.len(), |i: int| subs[i].0)
}

/// What an IRI expression makes of one inner value: the value if it is an IRI with a
/// scheme; else the base and the value, if that is an IRI reference; else `INVALID`.
pub open spec fn iri_value(base: Option<Seq<char>>, value: Seq<char>) -> Seq<char> {
    if is_iri(value) {
        value
    } else {
        let full = match base {
            Some(b) => b + value,
            None => value,
        };
        if is_iri_reference(full) {
            full
        } else {
            "INVALID"@
        }
    }
}

/// Whether an expression can be evaluated on `input`.
pub open spec fn accepts(e: Expr, input: Seq<Seq<char>>) -> bool
    decreases e,
{
    match e {
        Expr::Constant(_) => true,
        Expr::Reference(_, index) => 0 <= index < input.len(),
        Expr::TemplateString(parts, names) => input.len() <= names.len() && forall|k: int|
            0 <= k < parts.len() && (#[trigger] parts[k]).0 ==> last_position(
                names.take(input.len() as int),
                parts[k].1,
            ) is Some,
        Expr::TemplateFunctionValue(parts, subs) => forall|k: int|
            0 <= k < parts.len() && (#[trigger] parts[k]).0 ==> match position(
                sub_names(subs),
                parts[k].1,
            ) {
                Some(i) => 0 <= i < subs.len() && accepts(subs[i].1, input) && value(
                    subs[i].1,
                    input,
                ).len() > 0,
                None => false,
            },
        Expr::Iri(_, inner) => accepts(*inner, input),
        Expr::Literal(inner) => accepts(*inner, input),
        Expr::BlankNode(inner) => accepts(*inner, input),
        Expr::UriEncode(inner) => accepts(*inner, input),
    }
}

/// The values that an expression gives on `input`.
pub open spec fn value(e: Expr, input: Seq<Seq<char>>) -> Seq<Seq<char>>
    decreases e, 1nat, 0nat,
{
    match e {
        Expr::Constant(v) => seq![v],
        Expr::Reference(_, index) => seq![input[index]],
        Expr::TemplateString(parts, names) => seq![
            rendered(parts, names.take(input.len() as int), input),
        ],
        Expr::TemplateFunctionValue(parts, subs) => seq![rendered_subs(e, parts, input)],
        Expr::Iri(base, inner) => Seq::new(
            value(*inner, input).len(),
            |k: int| iri_value(base, value(*inner, input)[k]),
        ),
        Expr::Literal(inner) => value(*inner, input),
        Expr::BlankNode(inner) => value(*inner, input),
        Expr::UriEncode(inner) => Seq::new(
            value(*inner, input).len(),
            |k: int| uri_encoded(value(*inner, input)[k]),
        ),
    }
}

/// The text of a template with each variable replaced by the value of the last column that
/// has its name.
pub open spec fn rendered(parts: Seq<Part>, names: Seq<Seq<char>>, input: Seq<Seq<char>>) -> Seq<
    char,
>
    decreases parts.len(),
{
    if parts.len() == 0 {
        Seq::empty()
    } else {
        let head = rendered(parts.drop_last(), names, input);
        let part = parts.last();
        if part.0 {
            match last_position(names, part.1) {
                Some(i) => head + input[i],
                None => head,
            }
        } else {
            head + part.1
        }
    }
}

/// The text of the template parts `parts` with each variable replaced by the first value of
/// the sub-expression of `e` that has its name.
pub open spec fn rendered_subs(e: Expr, parts: Seq<Part>, input: Seq<Seq<char>>) -> Seq<char>
    decreases e, 0nat, parts.len(),
{
    match e {
        Expr::TemplateFunctionValue(_, subs) => if parts.len() == 0 {
            Seq::empty()
        } else {
            let head = rendered_subs(e, parts.drop_last(), input);
            let part = parts.last();
            if part.0 {
                match position(sub_names(subs), part.1) {
                    Some(i) => if 0 <= i < subs.len() {
                        head + value(subs[i].1, input)[0]
                    } else {
                        head
                    },
                    None => head,
                }
            } else {
                head + part.1
            }
        },
        _ => Seq::empty(),
    }
}

/// Every expression that can be evaluated gives exactly one value.
pub proof fn lemma_one_value(e: Expr, input: Seq<Seq<char>>)
    ensures
        value(e, input).len() == 1,
    decreases e,
{
    match e {
        Expr::Iri(_, inner) => lemma_one_value(*inner, input),
        Expr::Literal(inner) => lemma_one_value(*inner, input),
        Expr::BlankNode(inner) => lemma_one_value(*inner, input),
        Expr::UriEncode(inner) => lemma_one_value(*inner, input),
        _ => {},
    }
}

/// What every expression can do: take the header of its input, tell its result type, and
/// give its values for a tuple.
pub trait BasicFunction: Send {
    /// What the expression is.
    spec fn model(&self) -> Expr;

    /// Takes the header of the input.
    fn variable_names(&mut self, variable_names: &[String])
        ensures
            final(self).model() == bound(old(self).model(), texts(variable_names@)),
    ;

    /// The tag of the result type.
    fn get_result_type(&self) -> (r: &str)
        ensures
            r@ == type_tag(type_of(self.model())),
    ;

    /// The values for a tuple.
    fn exec(&self, input: &[String]) -> (r: Vec<String>)
        requires
            accepts(self.model(), texts(input@)),
        ensures
            texts(r@) == value(self.model(), texts(input@)),
    ;
}

} // verus!

