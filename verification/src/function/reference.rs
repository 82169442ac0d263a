use vstd::prelude::*;
use crate::function::basic_function::{accepts, bound, value, BasicFunction, Expr};
use crate::text::{find_text, texts};
use crate::util::{opt_text, remove_join_alias_prefix, strip_alias};

verus! {

/// An expression that gives the value of one column.
pub struct ReferenceFunction {
    pub(crate) variable_name: String,
    pub(crate) index: usize,
}

impl ReferenceFunction {
    pub open(crate) spec fn expr(&self) -> Expr {
        Expr::Reference(self.variable_name@, self.index as int)
    }

    /// A reference to the column `variable_name`, without the prefix of the join alias.
    /// Until a header is bound it points to the first column.
    pub fn new(variable_name: String, join_alias: &Option<String>) -> (r: Self)
        ensures
            r.model() == Expr::Reference(strip_alias(variable_name@, opt_text(*join_alias)), 0),
    {
        ReferenceFunction {
            variable_name: remove_join_alias_prefix(variable_name.as_str(), join_alias),
            index: 0,
        }
    }

    /// Points the reference to the first column that has its name, or to the first column
    /// if none has.
    pub fn bind(&mut self, variable_names: &[String])
        ensures
            final(self).expr() == bound(old(self).expr(), texts(variable_names@)),
    {
        proof {
            crate::text::lemma_position(texts(variable_names@), self.variable_name@);
        }
        self.index = match find_text(variable_names, self.variable_name.as_str()) {
            Some(i) => i,
            None => 0,
        };
    }

    /// Tells whether the expression can be evaluated on `input`.
    pub fn can_eval(&self, input: &[String]) -> (b: bool)
        ensures
            b == accepts(self.expr(), texts(input@)),
    {
        self.index < input.len()
    }

    /// The value of the column.
    pub fn eval(&self, input: &[String]) -> (r: Vec<String>)
        requires
            accepts(self.expr(), texts(input@)),
        ensures
            texts(r@) == value(self.expr(), texts(input@)),
    {
        let r = vec![input[self.index].clone()];
        assert(texts(r@) =~= seq![texts(input@)[self.index as int]]);
        r
    }
}

impl BasicFunction for ReferenceFunction {
    open(crate) spec fn model(&self) -> Expr {
        self.expr()
    }

    fn variable_names(&mut self, variable_names: &[String]) {
        self.bind(variable_names);
    }

    fn get_result_type(&self) -> (r: &str) {
        "str"
    }

    fn exec(&self, input: &[String]) -> (r: Vec<String>) {
        self.eval(input)
    }
}

} // verus!
