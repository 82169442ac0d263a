use vstd::prelude::*;
use crate::function::basic_function::{value, BasicFunction, Expr};
use crate::text::texts;

verus! {

/// An expression that always gives the same value.
pub struct ConstantFunction {
    pub(crate) value: String,
}

impl ConstantFunction {
    pub open(crate) spec fn expr(&self) -> Expr {
        Expr::Constant(self.value@)
    }

    pub fn new(value: String) -> (r: Self)
        ensures
            r.model() == Expr::Constant(value@),
    {
        ConstantFunction { value }
    }

    /// The value, whatever the input.
    pub fn eval(&self, input: &[String]) -> (r: Vec<String>)
        ensures
            texts(r@) == value(self.expr(), texts(input@)),
    {
        let r = vec![self.value.clone()];
        assert(texts(r@) =~= seq![self.value@]);
        r
    }
}

impl BasicFunction for ConstantFunction {
    open(crate) spec fn model(&self) -> Expr {
        self.expr()
    }

    fn variable_names(&mut self, variable_names: &[String]) {
    }

    fn get_result_type(&self) -> (r: &str) {
        "str"
    }

    fn exec(&self, input: &[String]) -> (r: Vec<String>) {
        self.eval(input)
    }
}

} // verus!
