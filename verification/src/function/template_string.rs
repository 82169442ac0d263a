use vstd::prelude::*;
use vstd::string::StringExecFns;
use crate::error::GeneralError;
use crate::function::basic_function::{accepts, bound, rendered, value, BasicFunction, Expr};
use crate::function::template_parser::{fault_message, parsed_template, parts_of};
use crate::text::{copy_strings, find_last_text, last_position, texts};
use crate::util::opt_text;

verus! {

/// An expression that fills the variables of a template with the values of the columns
/// that have their names.
pub struct TemplateStrFunction {
    pub(crate) template_string_parts: Vec<(bool, String)>,
    pub(crate) variable_names: Vec<String>,
}

/// Splits a template into literal parts and variable parts, with no join alias.
pub fn parse_template(template: &str) -> (r: Result<Vec<(bool, String)>, GeneralError>)
    ensures
        match parsed_template(template@, None) {
            Ok(parts) => r is Ok && parts_of(r->Ok_0@) == parts,
            Err(f) => r is Err && r->Err_0@ == seq![(1u8, fault_message(template@, f))],
        },
{
    crate::function::template_parser::parse_template(template, &None)
}

impl TemplateStrFunction {
    pub open(crate) spec fn expr(&self) -> Expr {
        Expr::TemplateString(parts_of(self.template_string_parts@), texts(self.variable_names@))
    }

    /// The expression for a template, or the failure of its parsing. No header is bound yet.
    pub fn new(template: &str, join_alias: &Option<String>) -> (r: Result<Self, GeneralError>)
        ensures
            match parsed_template(template@, opt_text(*join_alias)) {
                Ok(parts) => r is Ok && r->Ok_0.model() == Expr::TemplateString(
                    parts,
                    Seq::empty(),
                ),
                Err(f) => r is Err && r->Err_0@ == seq![(1u8, fault_message(template@, f))],
            },
    {
        match crate::function::template_parser::parse_template(template, join_alias) {
            Ok(parts) => {
                let f = TemplateStrFunction {
                    template_string_parts: parts,
                    variable_names: Vec::new(),
                };
                assert(texts(f.variable_names@) =~= Seq::empty());
                Ok(f)
            },
            Err(e) => Err(e),
        }
    }

    /// Keeps the header of the input.
    pub fn bind(&mut self, variable_names: &[String])
        ensures
            final(self).expr() == bound(old(self).expr(), texts(variable_names@)),
    {
        self.variable_names = copy_strings(variable_names);
    }

    /// Tells whether the expression can be evaluated on `input`.
    pub fn can_eval(&self, input: &[String]) -> (b: bool)
        ensures
            b == accepts(self.expr(), texts(input@)),
    {
        if input.len() > self.variable_names.len() {
            return false;
        }
        let ghost parts = parts_of(self.template_string_parts@);
        let ghost names = texts(self.variable_names@).take(input@.len() as int);
        let mut k: usize = 0;
        while k < self.template_string_parts.len()
            invariant
                k <= self.template_string_parts.len(),
                input@.len() <= self.variable_names@.len(),
                parts == parts_of(self.template_string_parts@),
                names == texts(self.variable_names@).take(input@.len() as int),
                forall|j: int|
                    0 <= j < k && (#[trigger] parts[j]).0 ==> last_position(names, parts[j].1)
                        is Some,
            decreases self.template_string_parts.len() - k,
        {
            let part = &self.template_string_parts[k];
            assert(parts[k as int] == (part.0, part.1@));
            if part.0 {
                let found = find_last_text(
                    self.variable_names.as_slice(),
                    input.len(),
                    part.1.as_str(),
                );
                if found.is_none() {
                    return false;
                }
            }
            k += 1;
        }
        true
    }

    /// The template with its variables filled in, as the one value.
    pub fn eval(&self, input: &[String]) -> (r: Vec<String>)
        requires
            accepts(self.expr(), texts(input@)),
        ensures
            texts(r@) == value(self.expr(), texts(input@)),
    {
        let ghost parts = parts_of(self.template_string_parts@);
        let ghost names = texts(self.variable_names@).take(input@.len() as int);
        let ghost values = texts(input@);
        let mut result_str = String::new();
        let mut k: usize = 0;
        assert(parts.take(0) =~= Seq::empty());
        while k < self.template_string_parts.len()
            invariant
                k <= self.template_string_parts.len(),
                parts == parts_of(self.template_string_parts@),
                names == texts(self.variable_names@).take(input@.len() as int),
                values == texts(input@),
                accepts(self.expr(), texts(input@)),
                result_str@ == rendered(parts.take(k as int), names, values),
            decreases self.template_string_parts.len() - k,
        {
            let part = &self.template_string_parts[k];
            proof {
                assert(parts.take(k + 1).drop_last() =~= parts.take(k as int));
                assert(parts.take(k + 1).last() == parts[k as int]);
                assert(parts[k as int] == (part.0, part.1@));
            }
            if part.0 {
                let found = find_last_text(
                    self.variable_names.as_slice(),
                    input.len(),
                    part.1.as_str(),
                );
                if let Some(i) = found {
                    result_str.append(input[i].as_str());
                }
            } else {
                result_str.append(part.1.as_str());
            }
            k += 1;
        }
        assert(parts.take(k as int) =~= parts);
        let r = vec![result_str];
        assert(texts(r@) =~= seq![result_str@]);
        r
    }
}

impl BasicFunction for TemplateStrFunction {
    open(crate) spec fn model(&self) -> Expr {
        self.expr()
    }

    fn variable_names(&mut self, variable_names: &[String]) {
        self.bind(variable_names);
    }

    fn get_result_type(&self) -> (r: &str) {
        "str"
    }

    fn exec(&self, input: &[String]) -> (r: Vec<String>) {
        self.eval(input)
    }
}

} // verus!
