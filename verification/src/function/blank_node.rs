use vstd::prelude::*;
use crate::function::any_function::AnyFunction;
use crate::function::basic_function::{accepts, bound, value, BasicFunction, Expr};
use crate::text::texts;

verus! {

/// An expression whose values are to be written as blank nodes.
pub struct BlankNodeFunction {
    pub(crate) inner_function: Box<AnyFunction>,
}

impl BlankNodeFunction {
    pub open(crate) spec fn expr(&self) -> Expr
        decreases self,
    {
        Expr::BlankNode(Box::new(self.inner_function.expr()))
    }

    pub fn new(inner_function: Box<AnyFunction>) -> (r: Self)
        ensures
            r.model() == Expr::BlankNode(Box::new(inner_function.expr())),
    {
        BlankNodeFunction { inner_function }
    }

    /// Hands the header to the inner expression.
    pub fn bind(&mut self, variable_names: &[String])
        ensures
            final(self).expr() == bound(old(self).expr(), texts(variable_names@)),
        decreases *old(self),
    {
        self.inner_function.bind(variable_names);
    }

    /// Tells whether the expression can be evaluated on `input`.
    pub fn can_eval(&self, input: &[String]) -> (b: bool)
        ensures
            b == accepts(self.expr(), texts(input@)),
        decreases self,
    {
        self.inner_function.can_eval(input)
    }

    /// The values of the inner expression.
    pub fn eval(&self, input: &[String]) -> (r: Vec<String>)
        requires
            accepts(self.expr(), texts(input@)),
        ensures
            texts(r@) == value(self.expr(), texts(input@)),
        decreases self,
    {
        self.inner_function.eval(input)
    }
}

impl BasicFunction for BlankNodeFunction {
    open(crate) spec fn model(&self) -> Expr {
        self.expr()
    }

    fn variable_names(&mut self, variable_names: &[String]) {
        self.bind(variable_names);
    }

    fn get_result_type(&self) -> (r: &str) {
        "blank"
    }

    fn exec(&self, input: &[String]) -> (r: Vec<String>) {
        self.eval(input)
    }
}

} // verus!
