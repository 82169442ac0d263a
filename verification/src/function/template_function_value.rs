use vstd::prelude::*;
use vstd::string::StringExecFns;
use crate::error::GeneralError;
use crate::function::any_function::AnyFunction;
use crate::function::basic_function::{
    accepts, bound, rendered_subs, sub_names, value, BasicFunction, Expr,
};
use crate::function::template_parser::{fault_message, parse_template, parsed_template, parts_of};
use crate::text::{lemma_position_prefix, position, same_text, texts};
use crate::util::opt_text;

verus! {

/// An expression that fills the variables of a template with the first values of the
/// expressions that have their names.
pub struct TemplateFunctionValueFunction {
    pub(crate) template_string_parts: Vec<(bool, String)>,
    pub(crate) variable_to_function_map: Vec<(String, AnyFunction)>,
}

/// What a list of named expressions is.
pub open(crate) spec fn named_exprs(subs: Seq<(String, AnyFunction)>) -> Seq<(Seq<char>, Expr)> {
    Seq::new(subs.len(), |i: int| (subs[i].0@, subs[i].1.expr()))
}

impl TemplateFunctionValueFunction {
    pub open(crate) spec fn expr(&self) -> Expr
        decreases self,
    {
        Expr::TemplateFunctionValue(
            parts_of(self.template_string_parts@),
            Seq::new(
                self.variable_to_function_map.len() as nat,
                |i: int|
                    if 0 <= i < self.variable_to_function_map.len() {
                        (
                            self.variable_to_function_map[i].0@,
                            self.variable_to_function_map[i].1.expr(),
                        )
                    } else {
                        (Seq::empty(), Expr::Constant(Seq::empty()))
                    },
            ),
        )
    }

    /// The expression for a template and the expressions that its variables name, or the
    /// failure of the parsing.
    pub fn new(
        template: &str,
        variable_function_pairs: Vec<(String, AnyFunction)>,
        join_alias: &Option<String>,
    ) -> (r: Result<Self, GeneralError>)
        ensures
            match parsed_template(template@, opt_text(*join_alias)) {
                Ok(parts) => r is Ok && r->Ok_0.model() == Expr::TemplateFunctionValue(
                    parts,
                    named_exprs(variable_function_pairs@),
                ),
                Err(f) => r is Err && r->Err_0@ == seq![(1u8, fault_message(template@, f))],
            },
    {
        match parse_template(template, join_alias) {
            Ok(parts) => {
                let f = TemplateFunctionValueFunction {
                    template_string_parts: parts,
                    variable_to_function_map: variable_function_pairs,
                };
                assert(f.expr()->TemplateFunctionValue_1 =~= named_exprs(variable_function_pairs@));
                Ok(f)
            },
            Err(e) => Err(e),
        }
    }

    /// Hands the header to every expression that a variable names.
    #[verifier::loop_isolation(false)]
    pub fn bind(&mut self, variable_names: &[String])
        ensures
            final(self).expr() == bound(old(self).expr(), texts(variable_names@)),
        decreases *old(self),
    {
        let n = self.variable_to_function_map.len();
        let ghost before = self.variable_to_function_map@;
        let ghost names = texts(variable_names@);
        let mut i: usize = 0;
        while i < n
            invariant
                i <= n,
                n == self.variable_to_function_map.len(),
                before.len() == n,
                old(self).variable_to_function_map@ == before,
                self.template_string_parts == old(self).template_string_parts,
                forall|j: int| i <= j < n ==> self.variable_to_function_map@[j] == before[j],
                forall|j: int|
                    0 <= j < i ==> self.variable_to_function_map@[j].0 == before[j].0
                        && self.variable_to_function_map@[j].1.expr() == bound(
                        before[j].1.expr(),
                        names,
                    ),
            decreases n - i,
        {
            proof {
                broadcast use vstd::std_specs::vec::axiom_vec_index_decreases;
                let ov = old(self).variable_to_function_map;
                assert(decreases_to!(ov => ov[i as int]));
            }
            self.variable_to_function_map[i].1.bind(variable_names);
            i += 1;
        }
        assert(self.expr()->TemplateFunctionValue_1 =~= bound(
            old(self).expr(),
            names,
        )->TemplateFunctionValue_1);
    }

    /// Finds the first expression that has the name `name`.
    fn find(&self, name: &str) -> (r: Option<usize>)
        ensures
            match r {
                Some(k) => position(sub_names(self.expr()->TemplateFunctionValue_1), name@)
                    == Some(k as int) && k < self.variable_to_function_map.len(),
                None => position(sub_names(self.expr()->TemplateFunctionValue_1), name@) is None,
            },
    {
        let ghost names = sub_names(self.expr()->TemplateFunctionValue_1);
        let mut i: usize = 0;
        assert(names.take(0) =~= Seq::empty());
        while i < self.variable_to_function_map.len()
            invariant
                i <= self.variable_to_function_map.len(),
                names == sub_names(self.expr()->TemplateFunctionValue_1),
                names.len() == self.variable_to_function_map.len(),
                position(names.take(i as int), name@) is None,
            decreases self.variable_to_function_map.len() - i,
        {
            assert(names.take(i + 1).drop_last() =~= names.take(i as int));
            assert(names[i as int] == self.variable_to_function_map@[i as int].0@);
            if same_text(self.variable_to_function_map[i].0.as_str(), name) {
                proof {
                    lemma_position_prefix(names, name@, i + 1);
                }
                return Some(i);
            }
            i += 1;
        }
        assert(names.take(i as int) =~= names);
        None
    }

    /// Tells whether the expression can be evaluated on `input`.
    #[verifier::loop_isolation(false)]
    pub fn can_eval(&self, input: &[String]) -> (b: bool)
        ensures
            b == accepts(self.expr(), texts(input@)),
        decreases self,
    {
        let ghost e = self.expr();
        let ghost parts = parts_of(self.template_string_parts@);
        let ghost subs = e->TemplateFunctionValue_1;
        let ghost values = texts(input@);
        assert(e == Expr::TemplateFunctionValue(parts, subs));
        let mut k: usize = 0;
        while k < self.template_string_parts.len()
            invariant
                k <= self.template_string_parts.len(),
                forall|j: int|
                    0 <= j < k && (#[trigger] parts[j]).0 ==> match position(
                        sub_names(subs),
                        parts[j].1,
                    ) {
                        Some(i) => 0 <= i < subs.len() && accepts(subs[i].1, values) && value(
                            subs[i].1,
                            values,
                        ).len() > 0,
                        None => false,
                    },
            decreases self.template_string_parts.len() - k,
        {
            let part = &self.template_string_parts[k];
            assert(parts[k as int] == (part.0, part.1@));
            if part.0 {
                match self.find(part.1.as_str()) {
                    None => {
                        return false;
                    },
                    Some(i) => {
                        proof {
                            broadcast use vstd::std_specs::vec::axiom_vec_index_decreases;
                            let v = self.variable_to_function_map;
                            assert(decreases_to!(v => v[i as int]));
                            assert(subs[i as int].1 == self.variable_to_function_map@[i as int].1.expr());
                            crate::function::basic_function::lemma_one_value(subs[i as int].1, values);
                        }
                        if !self.variable_to_function_map[i].1.can_eval(input) {
                            return false;
                        }
                    },
                }
            }
            k += 1;
        }
        true
    }

    /// The template with its variables filled in, as the one value.
    #[verifier::loop_isolation(false)]
    pub fn eval(&self, input: &[String]) -> (r: Vec<String>)
        requires
            accepts(self.expr(), texts(input@)),
        ensures
            texts(r@) == value(self.expr(), texts(input@)),
        decreases self,
    {
        let ghost e = self.expr();
        let ghost parts = parts_of(self.template_string_parts@);
        let ghost subs = e->TemplateFunctionValue_1;
        let ghost values = texts(input@);
        let ghost names = sub_names(subs);
        let mut result_str = String::new();
        let mut k: usize = 0;
        assert(parts.take(0) =~= Seq::empty());
        assert(e == Expr::TemplateFunctionValue(parts, subs));
        while k < self.template_string_parts.len()
            invariant
                k <= self.template_string_parts.len(),
                result_str@ == rendered_subs(e, parts.take(k as int), values),
            decreases self.template_string_parts.len() - k,
        {
            let part = &self.template_string_parts[k];
            proof {
                assert(parts.take(k + 1).drop_last() =~= parts.take(k as int));
                assert(parts.take(k + 1).last() == parts[k as int]);
                assert(parts[k as int] == (part.0, part.1@));
            }
            if part.0 {
                assert(parts[k as int].0);
                let found = self.find(part.1.as_str());
                if let Some(i) = found {
                    proof {
                        broadcast use vstd::std_specs::vec::axiom_vec_index_decreases;
                        let v = self.variable_to_function_map;
                        assert(decreases_to!(v => v[i as int]));
                        assert(subs[i as int].1 == self.variable_to_function_map@[i as int].1.expr());
                    }
                    let output = self.variable_to_function_map[i].1.eval(input);
                    assert(texts(output@)[0] == output@[0]@);
                    result_str.append(output[0].as_str());
                }
            } else {
                result_str.append(part.1.as_str());
            }
            k += 1;
        }
        assert(parts.take(k as int) =~= parts);
        let r = vec![result_str];
        proof {
            assert(texts(r@) =~= seq![result_str@]);
        }
        r
    }
}

impl BasicFunction for TemplateFunctionValueFunction {
    open(crate) spec fn model(&self) -> Expr {
        self.expr()
    }

    fn variable_names(&mut self, variable_names: &[String]) {
        self.bind(variable_names);
    }

    fn get_result_type(&self) -> (r: &str) {
        "str"
    }

    fn exec(&self, input: &[String]) -> (r: Vec<String>) {
        self.eval(input)
    }
}

} // verus!
