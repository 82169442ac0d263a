use vstd::prelude::*;
use vstd::string::StringExecFns;
use crate::error::GeneralError;
use crate::function::any_function::{tag_of, AnyFunction};
use crate::function::basic_function::{accepts, bound, type_of, type_tag, value, Expr};
use crate::function::blank_node::BlankNodeFunction;
use crate::function::constant::ConstantFunction;
use crate::function::iri::IriFunction;
use crate::function::literal::LiteralFunction;
use crate::function::reference::ReferenceFunction;
use crate::function::template_function_value::{named_exprs, TemplateFunctionValueFunction};
use crate::function::template_parser::{fault_message, parsed_template, TemplateFault};
use crate::function::template_string::TemplateStrFunction;
use crate::schema::{Function, FunctionView};
use crate::text::{chars_of, decimal, decimal_string, payload, payload_of, string_of, texts};
use crate::util::{alias_prefix, opt_text, strip_alias};

verus! {

/// A template that does not parse: its text and the fault.
pub type Rejected = (Seq<char>, TemplateFault);

/// The expression that a description stands for, or the first template in it that does
/// not parse. A percent-encoding is passed over: the expression inside it stands for it.
pub open spec fn compiled(f: FunctionView, alias: Option<Seq<char>>) -> Result<Expr, Rejected>
    decreases f, 1nat, 0nat,
{
    match f {
        FunctionView::Constant(v) => Ok(Expr::Constant(v)),
        FunctionView::Reference(v) => Ok(Expr::Reference(strip_alias(v, alias), 0)),
        FunctionView::TemplateString(t) => match parsed_template(t, alias) {
            Ok(parts) => Ok(Expr::TemplateString(parts, Seq::empty())),
            Err(fault) => Err((t, fault)),
        },
        FunctionView::TemplateFunctionValue(t, subs) => match compiled_subs(f, subs.len(), alias) {
            Err(r) => Err(r),
            Ok(exprs) => match parsed_template(t, alias) {
                Ok(parts) => Ok(Expr::TemplateFunctionValue(parts, exprs)),
                Err(fault) => Err((t, fault)),
            },
        },
        FunctionView::Iri(base, inner) => match compiled(*inner, alias) {
            Ok(e) => Ok(Expr::Iri(base, Box::new(e))),
            Err(r) => Err(r),
        },
        FunctionView::Literal(inner) => match compiled(*inner, alias) {
            Ok(e) => Ok(Expr::Literal(Box::new(e))),
            Err(r) => Err(r),
        },
        FunctionView::BlankNode(inner) => match compiled(*inner, alias) {
            Ok(e) => Ok(Expr::BlankNode(Box::new(e))),
            Err(r) => Err(r),
        },
        FunctionView::UriEncode(inner) => compiled(*inner, alias),
    }
}

/// The expressions of the first `n` named descriptions of `f`, in order, or the first
/// template in them that does not parse.
pub open spec fn compiled_subs(f: FunctionView, n: nat, alias: Option<Seq<char>>) -> Result<
    Seq<(Seq<char>, Expr)>,
    Rejected,
>
    decreases f, 0nat, n,
{
    match f {
        FunctionView::TemplateFunctionValue(_, subs) => if n == 0 || n > subs.len() {
            Ok(Seq::empty())
        } else {
            match compiled_subs(f, (n - 1) as nat, alias) {
                Err(r) => Err(r),
                Ok(exprs) => match compiled(subs[n - 1].1, alias) {
                    Err(r) => Err(r),
                    Ok(e) => Ok(exprs.push((subs[n - 1].0, e))),
                },
            }
        },
        _ => Ok(Seq::empty()),
    }
}

/// The failure reported for a template that does not parse.
pub open spec fn rejection(r: Rejected) -> Seq<(u8, Seq<char>)> {
    seq![(1u8, fault_message(r.0, r.1))]
}

/// Builds the expression that a description stands for.
#[verifier::loop_isolation(false)]
pub fn get_function(function: &Function, join_alias: &Option<String>) -> (r: Result<
    AnyFunction,
    GeneralError,
>)
    ensures
        match compiled(function@, opt_text(*join_alias)) {
            Ok(e) => r is Ok && r->Ok_0.expr() == e,
            Err(rejected) => r is Err && r->Err_0@ == rejection(rejected),
        },
    decreases function,
{
    let ghost alias = opt_text(*join_alias);
    match function {
        Function::Constant { value } => Ok(
            AnyFunction::Constant(ConstantFunction::new(value.clone())),
        ),
        Function::Reference { value } => Ok(
            AnyFunction::Reference(ReferenceFunction::new(value.clone(), join_alias)),
        ),
        Function::TemplateString { value } => {
            match TemplateStrFunction::new(value.as_str(), join_alias) {
                Ok(f) => Ok(AnyFunction::TemplateString(f)),
                Err(e) => Err(e),
            }
        },
        Function::TemplateFunctionValue { template, variable_function_pairs } => {
            let mut subs: Vec<(String, AnyFunction)> = Vec::new();
            let mut i: usize = 0;
            assert(named_exprs(subs@) =~= Seq::empty());
            assert(function@ is TemplateFunctionValue);
            assert(function@->TemplateFunctionValue_1.len() == variable_function_pairs.len());
            while i < variable_function_pairs.len()
                invariant
                    i <= variable_function_pairs.len(),
                    compiled_subs(function@, i as nat, alias) == Ok::<
                        Seq<(Seq<char>, Expr)>,
                        Rejected,
                    >(named_exprs(subs@)),
                decreases variable_function_pairs.len() - i,
            {
                proof {
                    broadcast use vstd::std_specs::vec::axiom_vec_index_decreases;
                    assert(decreases_to!(variable_function_pairs => variable_function_pairs[i as int]));
                    assert(function@->TemplateFunctionValue_1[i as int] == (
                        variable_function_pairs[i as int].0@,
                        variable_function_pairs[i as int].1@,
                    ));
                }
                match get_function(&variable_function_pairs[i].1, join_alias) {
                    Err(e) => {
                        proof {
                            lemma_rejection_stays(
                                function@,
                                i + 1,
                                variable_function_pairs.len() as int,
                                alias,
                            );
                        }
                        return Err(e);
                    },
                    Ok(f) => {
                        let ghost before = named_exprs(subs@);
                        subs.push((variable_function_pairs[i].0.clone(), f));
                        assert(named_exprs(subs@) =~= before.push(
                            (variable_function_pairs[i as int].0@, f.expr()),
                        ));
                    },
                }
                i += 1;
            }
            match TemplateFunctionValueFunction::new(template.as_str(), subs, join_alias) {
                Ok(f) => Ok(AnyFunction::TemplateFunctionValue(f)),
                Err(e) => Err(e),
            }
        },
        Function::Iri { base_iri, inner_function } => {
            match get_function(inner_function, join_alias) {
                Ok(inner) => Ok(AnyFunction::Iri(IriFunction::new(base_iri, Box::new(inner)))),
                Err(e) => Err(e),
            }
        },
        Function::Literal { inner_function } => {
            match get_function(inner_function, join_alias) {
                Ok(inner) => Ok(AnyFunction::Literal(LiteralFunction::new(Box::new(inner)))),
                Err(e) => Err(e),
            }
        },
        Function::BlankNode { inner_function } => {
            match get_function(inner_function, join_alias) {
                Ok(inner) => Ok(AnyFunction::BlankNode(BlankNodeFunction::new(Box::new(inner)))),
                Err(e) => Err(e),
            }
        },
        Function::UriEncode { inner_function } => get_function(inner_function, join_alias),
    }
}

/// A rejection among the first named descriptions is the rejection of them all.
pub proof fn lemma_rejection_stays(f: FunctionView, n: int, m: int, alias: Option<Seq<char>>)
    requires
        f is TemplateFunctionValue,
        0 <= n <= m <= f->TemplateFunctionValue_1.len(),
        compiled_subs(f, n as nat, alias) is Err,
    ensures
        compiled_subs(f, m as nat, alias) == compiled_subs(f, n as nat, alias),
    decreases m - n,
{
    if n < m {
        lemma_rejection_stays(f, n, m - 1, alias);
    }
}

/// The expressions of the first `n` named descriptions, in order, or the first template in
/// them that does not parse.
pub open spec fn compiled_all(
    pairs: Seq<(Seq<char>, FunctionView)>,
    n: nat,
    alias: Option<Seq<char>>,
) -> Result<Seq<Expr>, Rejected>
    decreases n,
{
    if n == 0 || n > pairs.len() {
        Ok(Seq::empty())
    } else {
        match compiled_all(pairs, (n - 1) as nat, alias) {
            Err(r) => Err(r),
            Ok(exprs) => match compiled(pairs[n - 1].1, alias) {
                Err(r) => Err(r),
                Ok(e) => Ok(exprs.push(e)),
            },
        }
    }
}

/// A rejection among the first named descriptions is the rejection of them all.
pub proof fn lemma_rejection_of_all(
    pairs: Seq<(Seq<char>, FunctionView)>,
    n: int,
    m: int,
    alias: Option<Seq<char>>,
)
    requires
        0 <= n <= m <= pairs.len(),
        compiled_all(pairs, n as nat, alias) is Err,
    ensures
        compiled_all(pairs, m as nat, alias) == compiled_all(pairs, n as nat, alias),
    decreases m - n,
{
    if n < m {
        lemma_rejection_of_all(pairs, n, m - 1, alias);
    }
}

/// The names of a header, followed, where a join was taken out in front of the node, by
/// the same names with the join's alias and an underscore in front.
pub open spec fn doubled_names(names: Seq<Seq<char>>, alias: Option<Seq<char>>) -> Seq<Seq<char>> {
    match alias {
        Some(a) => names + Seq::new(names.len(), |i: int| alias_prefix(a) + names[i]),
        None => names,
    }
}

/// The values of a tuple, twice where a join was taken out in front of the node.
pub open spec fn doubled_values(values: Seq<Seq<char>>, alias: Option<Seq<char>>) -> Seq<
    Seq<char>,
> {
    match alias {
        Some(_) => values + values,
        None => values,
    }
}

/// The values of all expressions on `input`, one expression after the other.
pub open spec fn outputs(exprs: Seq<Expr>, input: Seq<Seq<char>>) -> Seq<Seq<char>>
    decreases exprs.len(),
{
    if exprs.len() == 0 {
        Seq::empty()
    } else {
        outputs(exprs.drop_last(), input) + value(exprs.last(), input)
    }
}

/// The operator that computes new columns from the columns of its input.
pub struct ExtendOperator {
    functions: Vec<(String, AnyFunction)>,
    node_id: String,
    join_alias: Option<String>,
    header_seen: bool,
}

/// The names of the output columns as the plan gives them.
pub open(crate) spec fn names_of(functions: Seq<(String, AnyFunction)>) -> Seq<Seq<char>> {
    Seq::new(functions.len(), |i: int| functions[i].0@)
}

/// What the expressions of the columns are.
pub open(crate) spec fn exprs_of(functions: Seq<(String, AnyFunction)>) -> Seq<Expr> {
    Seq::new(functions.len(), |i: int| functions[i].1.expr())
}

/// The content of a list of named function descriptions.
pub open spec fn described(pairs: Seq<(String, Function)>) -> Seq<(Seq<char>, FunctionView)> {
    Seq::new(pairs.len(), |i: int| (pairs[i].0@, pairs[i].1@))
}

impl ExtendOperator {
    /// The names of the output columns, each with its sigil in front.
    pub closed spec fn names(&self) -> Seq<Seq<char>> {
        names_of(self.functions@)
    }

    /// The expressions of the output columns.
    pub closed spec fn exprs(&self) -> Seq<Expr> {
        exprs_of(self.functions@)
    }

    /// The identifier of the node, in decimal.
    pub closed spec fn id(&self) -> Seq<char> {
        self.node_id@
    }

    /// The alias of the join that was taken out in front of the node, if one was.
    pub closed spec fn alias(&self) -> Option<Seq<char>> {
        opt_text(self.join_alias)
    }

    /// Whether the header of the input has come.
    pub closed spec fn header_seen(&self) -> bool {
        self.header_seen
    }

    /// What the expressions see of a tuple: its payload, twice if there is an alias.
    pub open spec fn input_of(&self, tuple: Seq<Seq<char>>) -> Seq<Seq<char>> {
        doubled_values(payload(tuple), self.alias())
    }

    /// Whether every expression can be evaluated on a tuple.
    pub open spec fn ready_for(&self, tuple: Seq<Seq<char>>) -> bool {
        forall|i: int|
            0 <= i < self.exprs().len() ==> accepts(#[trigger] self.exprs()[i], self.input_of(tuple))
    }

    /// Builds every expression, in the order of the pairs, or fails with the first template
    /// that does not parse.
    pub fn new(
        extend_pairs: &Vec<(String, Function)>,
        node_id: &usize,
        join_alias: &Option<String>,
    ) -> (r: Result<Self, GeneralError>)
        ensures
            match compiled_all(
                described(extend_pairs@),
                extend_pairs@.len(),
                opt_text(*join_alias),
            ) {
                Ok(exprs) => r is Ok && r->Ok_0.exprs() == exprs && r->Ok_0.names() == Seq::new(
                    extend_pairs@.len(),
                    |i: int| extend_pairs@[i].0@,
                ) && r->Ok_0.id() == decimal(*node_id as nat) && r->Ok_0.alias() == opt_text(
                    *join_alias,
                ) && !r->Ok_0.header_seen(),
                Err(rejected) => r is Err && r->Err_0@ == rejection(rejected),
            },
    {
        let ghost alias = opt_text(*join_alias);
        let ghost pairs = described(extend_pairs@);
        let mut functions: Vec<(String, AnyFunction)> = Vec::new();
        let mut i: usize = 0;
        assert(exprs_of(functions@) =~= Seq::empty());
        while i < extend_pairs.len()
            invariant
                i <= extend_pairs.len(),
                alias == opt_text(*join_alias),
                pairs == described(extend_pairs@),
                functions.len() == i,
                compiled_all(pairs, i as nat, alias) == Ok::<Seq<Expr>, Rejected>(
                    exprs_of(functions@),
                ),
                forall|j: int| 0 <= j < i ==> (#[trigger] functions@[j]).0@ == extend_pairs@[j].0@,
            decreases extend_pairs.len() - i,
        {
            assert(pairs[i as int] == (extend_pairs@[i as int].0@, extend_pairs@[i as int].1@));
            match get_function(&extend_pairs[i].1, join_alias) {
                Err(e) => {
                    proof {
                        lemma_rejection_of_all(pairs, i + 1, extend_pairs.len() as int, alias);
                    }
                    return Err(e);
                },
                Ok(f) => {
                    let ghost before = exprs_of(functions@);
                    functions.push((extend_pairs[i].0.clone(), f));
                    assert(exprs_of(functions@) =~= before.push(f.expr()));
                },
            }
            i += 1;
        }
        let op = ExtendOperator {
            functions,
            node_id: decimal_string(*node_id),
            join_alias: match join_alias {
                Some(a) => Some(a.clone()),
                None => None,
            },
            header_seen: false,
        };
        assert(op.names() =~= Seq::new(extend_pairs@.len(), |i: int| extend_pairs@[i].0@));
        Ok(op)
    }

    /// The first tuple to send: the node's identifier and the names of the output columns,
    /// each without its sigil.
    pub fn header_tuple(&self) -> (r: Vec<String>)
        ensures
            texts(r@) == seq![self.id()] + announced(self.names()),
    {
        let mut out: Vec<String> = Vec::new();
        out.push(self.node_id.clone());
        let mut i: usize = 0;
        while i < self.functions.len()
            invariant
                i <= self.functions.len(),
                out.len() == i + 1,
                out@[0]@ == self.node_id@,
                forall|m: int|
                    1 <= m <= i ==> (#[trigger] out@[m])@ == without_sigil(
                        self.functions@[m - 1].0@,
                    ),
            decreases self.functions.len() - i,
        {
            let name = chars_of(self.functions[i].0.as_str());
            let from: usize = if name.len() > 0 {
                1
            } else {
                0
            };
            let stripped = string_of(&name, from, name.len());
            assert(stripped@ =~= without_sigil(self.functions@[i as int].0@));
            out.push(stripped);
            i += 1;
        }
        assert(texts(out@) =~= seq![self.id()] + announced(self.names()));
        out
    }

    /// The second tuple to send: the node's identifier and the tag of the result type of
    /// each output column.
    pub fn type_tuple(&self) -> (r: Vec<String>)
        ensures
            texts(r@) == seq![self.id()] + Seq::new(
                self.exprs().len(),
                |i: int| type_tag(type_of(self.exprs()[i])),
            ),
    {
        let mut out: Vec<String> = Vec::new();
        out.push(self.node_id.clone());
        let mut i: usize = 0;
        while i < self.functions.len()
            invariant
                i <= self.functions.len(),
                out.len() == i + 1,
                out@[0]@ == self.node_id@,
                forall|m: int|
                    1 <= m <= i ==> (#[trigger] out@[m])@ == type_tag(
                        type_of(self.functions@[m - 1].1.expr()),
                    ),
            decreases self.functions.len() - i,
        {
            let tag = tag_of(self.functions[i].1.result_type());
            out.push(tag.to_string());
            i += 1;
        }
        assert(texts(out@) =~= seq![self.id()] + Seq::new(
            self.exprs().len(),
            |i: int| type_tag(type_of(self.exprs()[i])),
        ));
        out
    }

    /// What the expressions get for a tuple: its payload, twice if there is an alias.
    fn input_for(&self, tuple: &[String]) -> (r: Vec<String>)
        ensures
            texts(r@) == self.input_of(texts(tuple@)),
    {
        let mut out = payload_of(tuple);
        if self.join_alias.is_some() {
            let n = out.len();
            let ghost once = texts(out@);
            let mut k: usize = 0;
            while k < n
                invariant
                    k <= n,
                    n == once.len(),
                    out@.len() == n + k,
                    texts(out@) == once + once.take(k as int),
                decreases n - k,
            {
                let v = out[k].clone();
                let ghost before = texts(out@);
                assert(before[k as int] == once[k as int]);
                assert(v@ == once[k as int]);
                out.push(v);
                assert(texts(out@) =~= before.push(once[k as int]));
                assert(once.take(k + 1) =~= once.take(k as int).push(once[k as int]));
                assert(texts(out@) =~= once + once.take(k + 1));
                k += 1;
            }
            assert(once.take(n as int) =~= once);
        }
        out
    }

    /// The header that the expressions get for the header tuple of the input.
    fn names_for(&self, tuple: &[String]) -> (r: Vec<String>)
        ensures
            texts(r@) == doubled_names(payload(texts(tuple@)), self.alias()),
    {
        let mut out = payload_of(tuple);
        match &self.join_alias {
            Some(alias) => {
                let n = out.len();
                let ghost once = texts(out@);
                let ghost a = alias@;
                let mut k: usize = 0;
                while k < n
                    invariant
                        k <= n,
                        n == once.len(),
                        a == alias@,
                        out@.len() == n + k,
                        texts(out@).take(n as int) == once,
                        forall|m: int|
                            n <= m < n + k ==> (#[trigger] out@[m])@ == alias_prefix(a) + once[m
                                - n],
                    decreases n - k,
                {
                    let mut name = alias.clone();
                    name.push('_');
                    assert(texts(out@).take(n as int)[k as int] == once[k as int]);
                    name.append(out[k].as_str());
                    let ghost before = texts(out@);
                    assert(name@ =~= alias_prefix(a) + once[k as int]);
                    out.push(name);
                    assert(texts(out@).take(n as int) =~= before.take(n as int));
                    k += 1;
                }
                assert forall|m: int| 0 <= m < n implies texts(out@)[m] == once[m] by {
                    assert(texts(out@).take(n as int)[m] == once[m]);
                }
                assert(texts(out@) =~= doubled_names(once, Some(a)));
            },
            None => {},
        }
        out
    }

    /// Tells whether the header of the input is still to come.
    pub fn awaits_header(&self) -> (b: bool)
        ensures
            b == !self.header_seen(),
    {
        !self.header_seen
    }

    /// Tells whether every expression can be evaluated on a tuple.
    pub fn is_ready_for(&self, tuple: &[String]) -> (b: bool)
        ensures
            b == self.ready_for(texts(tuple@)),
    {
        let input = self.input_for(tuple);
        let mut i: usize = 0;
        while i < self.functions.len()
            invariant
                i <= self.functions.len(),
                texts(input@) == self.input_of(texts(tuple@)),
                forall|j: int|
                    0 <= j < i ==> accepts(#[trigger] self.exprs()[j], self.input_of(texts(tuple@))),
            decreases self.functions.len() - i,
        {
            assert(self.exprs()[i as int] == self.functions@[i as int].1.expr());
            if !self.functions[i].1.can_eval(input.as_slice()) {
                return false;
            }
            i += 1;
        }
        true
    }

    /// Takes the next tuple of the input. The first one is the header: every expression
    /// binds its names, doubled if there is an alias, and nothing is to be sent. Every
    /// later one is data: what is to be sent is the node's identifier and then the values
    /// of the expressions on the payload, doubled if there is an alias.
    pub fn on_tuple(&mut self, tuple: &[String]) -> (out: Option<Vec<String>>)
        requires
            old(self).header_seen() ==> old(self).ready_for(texts(tuple@)),
        ensures
            final(self).id() == old(self).id(),
            final(self).alias() == old(self).alias(),
            final(self).names() == old(self).names(),
            final(self).header_seen(),
            !old(self).header_seen() ==> out is None && final(self).exprs() == Seq::new(
                old(self).exprs().len(),
                |i: int|
                    bound(
                        old(self).exprs()[i],
                        doubled_names(payload(texts(tuple@)), old(self).alias()),
                    ),
            ),
            old(self).header_seen() ==> final(self).exprs() == old(self).exprs() && out is Some
                && texts(out->Some_0@) == seq![old(self).id()] + outputs(
                old(self).exprs(),
                old(self).input_of(texts(tuple@)),
            ),
    {
        if !self.header_seen {
            let names = self.names_for(tuple);
            let n = self.functions.len();
            let ghost before = self.functions@;
            let ghost header = texts(names@);
            let mut i: usize = 0;
            while i < n
                invariant
                    i <= n,
                    n == self.functions.len(),
                    before.len() == n,
                    header == texts(names@),
                    self.node_id == old(self).node_id,
                    self.join_alias == old(self).join_alias,
                    self.header_seen == old(self).header_seen,
                    forall|j: int| i <= j < n ==> self.functions@[j] == before[j],
                    forall|j: int|
                        0 <= j < i ==> (#[trigger] self.functions@[j]).0 == before[j].0
                            && self.functions@[j].1.expr() == bound(before[j].1.expr(), header),
                decreases n - i,
            {
                self.functions[i].1.bind(names.as_slice());
                i += 1;
            }
            self.header_seen = true;
            assert(self.names() =~= old(self).names());
            assert(self.exprs() =~= Seq::new(
                old(self).exprs().len(),
                |i: int|
                    bound(
                        old(self).exprs()[i],
                        doubled_names(payload(texts(tuple@)), old(self).alias()),
                    ),
            ));
            None
        } else {
            let input = self.input_for(tuple);
            let ghost values = texts(input@);
            let mut out: Vec<String> = Vec::new();
            out.push(self.node_id.clone());
            let mut i: usize = 0;
            assert(self.exprs().take(0) =~= Seq::empty());
            assert(texts(out@) =~= seq![self.id()] + outputs(self.exprs().take(0), values));
            while i < self.functions.len()
                invariant
                    i <= self.functions.len(),
                    values == texts(input@),
                    values == self.input_of(texts(tuple@)),
                    self.ready_for(texts(tuple@)),
                    texts(out@) == seq![self.id()] + outputs(self.exprs().take(i as int), values),
                decreases self.functions.len() - i,
            {
                assert(self.exprs()[i as int] == self.functions@[i as int].1.expr());
                assert(accepts(self.exprs()[i as int], values));
                let mut results = self.functions[i].1.eval(input.as_slice());
                let ghost got = texts(results@);
                let ghost sofar = texts(out@);
                proof {
                    assert(self.exprs().take(i + 1).drop_last() =~= self.exprs().take(i as int));
                    assert(self.exprs().take(i + 1).last() == self.exprs()[i as int]);
                }
                out.append(&mut results);
                assert(texts(out@) =~= sofar + got);
                assert(sofar + got =~= seq![self.id()] + outputs(
                    self.exprs().take(i + 1),
                    values,
                ));
                i += 1;
            }
            assert(self.exprs().take(i as int) =~= self.exprs());
            Some(out)
        }
    }
}

/// A name without its first character, the sigil.
pub open spec fn without_sigil(name: Seq<char>) -> Seq<char> {
    if name.len() > 0 {
        name.skip(1)
    } else {
        name
    }
}

/// The names as a header announces them: each without its sigil.
pub open spec fn announced(names: Seq<Seq<char>>) -> Seq<Seq<char>> {
    Seq::new(names.len(), |i: int| without_sigil(names[i]))
}

} // verus!
