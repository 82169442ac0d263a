use vstd::prelude::*;
use crate::function::basic_function::{
    accepts, bound, type_of, type_tag, value, BasicFunction, Expr, ResultType,
};
use crate::function::blank_node::BlankNodeFunction;
use crate::function::constant::ConstantFunction;
use crate::function::iri::IriFunction;
use crate::function::literal::LiteralFunction;
use crate::function::reference::ReferenceFunction;
use crate::function::template_function_value::TemplateFunctionValueFunction;
use crate::function::template_string::TemplateStrFunction;
use crate::function::uri_encode::UriEncodeFunction;
use crate::text::texts;

verus! {

/// Any of the expressions, so that one expression can hold another.
pub enum AnyFunction {
    Constant(ConstantFunction),
    Reference(ReferenceFunction),
    TemplateString(TemplateStrFunction),
    TemplateFunctionValue(TemplateFunctionValueFunction),
    Literal(LiteralFunction),
    BlankNode(BlankNodeFunction),
    Iri(IriFunction),
    UriEncode(UriEncodeFunction),
}

impl AnyFunction {
    pub open(crate) spec fn expr(&self) -> Expr
        decreases self,
    {
        match self {
            AnyFunction::Constant(f) => f.expr(),
            AnyFunction::Reference(f) => f.expr(),
            AnyFunction::TemplateString(f) => f.expr(),
            AnyFunction::TemplateFunctionValue(f) => f.expr(),
            AnyFunction::Literal(f) => f.expr(),
            AnyFunction::BlankNode(f) => f.expr(),
            AnyFunction::Iri(f) => f.expr(),
            AnyFunction::UriEncode(f) => f.expr(),
        }
    }

    /// Hands the header of the input to the expression.
    pub fn bind(&mut self, variable_names: &[String])
        ensures
            final(self).expr() == bound(old(self).expr(), texts(variable_names@)),
        decreases *old(self),
    {
        match self {
            AnyFunction::Constant(f) => {},
            AnyFunction::Reference(f) => f.bind(variable_names),
            AnyFunction::TemplateString(f) => f.bind(variable_names),
            AnyFunction::TemplateFunctionValue(f) => f.bind(variable_names),
            AnyFunction::Literal(f) => f.bind(variable_names),
            AnyFunction::BlankNode(f) => f.bind(variable_names),
            AnyFunction::Iri(f) => f.bind(variable_names),
            AnyFunction::UriEncode(f) => f.bind(variable_names),
        }
    }

    /// Tells whether the expression can be evaluated on `input`.
    pub fn can_eval(&self, input: &[String]) -> (b: bool)
        ensures
            b == accepts(self.expr(), texts(input@)),
        decreases self,
    {
        match self {
            AnyFunction::Constant(f) => true,
            AnyFunction::Reference(f) => f.can_eval(input),
            AnyFunction::TemplateString(f) => f.can_eval(input),
            AnyFunction::TemplateFunctionValue(f) => f.can_eval(input),
            AnyFunction::Literal(f) => f.can_eval(input),
            AnyFunction::BlankNode(f) => f.can_eval(input),
            AnyFunction::Iri(f) => f.can_eval(input),
            AnyFunction::UriEncode(f) => f.can_eval(input),
        }
    }

    pub fn eval(&self, input: &[String]) -> (r: Vec<String>)
        requires
            accepts(self.expr(), texts(input@)),
        ensures
            texts(r@) == value(self.expr(), texts(input@)),
        decreases self,
    {
        match self {
            AnyFunction::Constant(f) => f.eval(input),
            AnyFunction::Reference(f) => f.eval(input),
            AnyFunction::TemplateString(f) => f.eval(input),
            AnyFunction::TemplateFunctionValue(f) => f.eval(input),
            AnyFunction::Literal(f) => f.eval(input),
            AnyFunction::BlankNode(f) => f.eval(input),
            AnyFunction::Iri(f) => f.eval(input),
            AnyFunction::UriEncode(f) => f.eval(input),
        }
    }

    /// The result type of the expression.
    pub fn result_type(&self) -> (r: ResultType)
        ensures
            r == type_of(self.expr()),
    {
        match self {
            AnyFunction::Literal(_) => ResultType::Lit,
            AnyFunction::BlankNode(_) => ResultType::Blank,
            AnyFunction::Iri(_) => ResultType::Iri,
            _ => ResultType::Str,
        }
    }
}

/// The tag of a result type.
pub fn tag_of(t: ResultType) -> (r: &'static str)
    ensures
        r@ == type_tag(t),
{
    match t {
        ResultType::Str => "str",
        ResultType::Iri => "iri",
        ResultType::Lit => "lit",
        ResultType::Blank => "blank",
    }
}

impl BasicFunction for AnyFunction {
    open(crate) spec fn model(&self) -> Expr {
        self.expr()
    }

    fn variable_names(&mut self, variable_names: &[String]) {
        self.bind(variable_names);
    }

    fn get_result_type(&self) -> (r: &str) {
        tag_of(self.result_type())
    }

    fn exec(&self, input: &[String]) -> (r: Vec<String>) {
        self.eval(input)
    }
}

} // verus!
