use vstd::prelude::*;
use vstd::string::StringExecFns;
use crate::function::any_function::AnyFunction;
use crate::function::basic_function::{accepts, bound, iri_value, value, BasicFunction, Expr};
use crate::text::texts;
use crate::util::opt_text;

verus! {

/// Whether a text is an IRI, which begins with a scheme: what `iri_string::validate::iri`
/// accepts under the URI rules.
pub uninterp spec fn is_iri(text: Seq<char>) -> bool;

/// Whether a text is an IRI reference, absolute or relative: what
/// `iri_string::validate::iri_reference` accepts under the URI rules.
pub uninterp spec fn is_iri_reference(text: Seq<char>) -> bool;

/// Calls `iri_string::validate::iri::<UriSpec>`: the answer is that validator's verdict on
/// the text, which depends on the text alone.
#[verifier::external_body]
pub(crate) fn validates_as_iri(text: &str) -> (ok: bool)
    ensures
        ok == is_iri(text@),
{
    iri_string::validate::iri::<iri_string::spec::UriSpec>(text).is_ok()
}

/// Calls `iri_string::validate::iri_reference::<UriSpec>`: the answer is that validator's
/// verdict on the text, which depends on the text alone.
#[verifier::external_body]
pub(crate) fn validates_as_iri_reference(text: &str) -> (ok: bool)
    ensures
        ok == is_iri_reference(text@),
{
    iri_string::validate::iri_reference::<iri_string::spec::UriSpec>(text).is_ok()
}

/// The base, if there is one, followed by the value.
pub fn with_base(base_iri: &Option<String>, value: &str) -> (r: String)
    ensures
        r@ == match opt_text(*base_iri) {
            Some(b) => b + value@,
            None => value@,
        },
{
    match base_iri {
        Some(b) => {
            let mut full = b.clone();
            full.append(value);
            full
        },
        None => value.to_string(),
    }
}

/// What stands for a value once the validators have spoken: the value if it is an IRI,
/// else the value with its base if that is an IRI reference, else `INVALID`.
pub fn settled_iri(value: String, absolute: bool, full: String, reference: bool) -> (r: String)
    ensures
        r@ == if absolute {
            value@
        } else if reference {
            full@
        } else {
            "INVALID"@
        },
{
    if absolute {
        value
    } else if reference {
        full
    } else {
        "INVALID".to_string()
    }
}

/// An expression whose values are IRIs, made of the values of the inner expression.
pub struct IriFunction {
    pub(crate) base_iri: Option<String>,
    pub(crate) inner_function: Box<AnyFunction>,
}

impl IriFunction {
    pub open(crate) spec fn expr(&self) -> Expr
        decreases self,
    {
        Expr::Iri(opt_text(self.base_iri), Box::new(self.inner_function.expr()))
    }

    pub fn new(base_iri: &Option<String>, inner_function: Box<AnyFunction>) -> (r: Self)
        ensures
            r.model() == Expr::Iri(opt_text(*base_iri), Box::new(inner_function.expr())),
    {
        IriFunction {
            base_iri: match base_iri {
                Some(b) => Some(b.clone()),
                None => None,
            },
            inner_function,
        }
    }

    /// Hands the header to the inner expression.
    pub fn bind(&mut self, variable_names: &[String])
        ensures
            final(self).expr() == bound(old(self).expr(), texts(variable_names@)),
        decreases *old(self),
    {
        self.inner_function.bind(variable_names);
    }

    /// Tells whether the expression can be evaluated on `input`.
    pub fn can_eval(&self, input: &[String]) -> (b: bool)
        ensures
            b == accepts(self.expr(), texts(input@)),
        decreases self,
    {
        self.inner_function.can_eval(input)
    }

    /// The IRI for one value of the inner expression.
    fn check(&self, value: &str) -> (r: String)
        ensures
            r@ == iri_value(opt_text(self.base_iri), value@),
    {
        let absolute = validates_as_iri(value);
        let full = with_base(&self.base_iri, value);
        let reference = !absolute && validates_as_iri_reference(full.as_str());
        settled_iri(value.to_string(), absolute, full, reference)
    }

    /// The IRIs for the values of the inner expression.
    pub fn eval(&self, input: &[String]) -> (r: Vec<String>)
        requires
            accepts(self.expr(), texts(input@)),
        ensures
            texts(r@) == value(self.expr(), texts(input@)),
        decreases self,
    {
        let inner = self.inner_function.eval(input);
        let mut out: Vec<String> = Vec::new();
        let mut k: usize = 0;
        while k < inner.len()
            invariant
                k <= inner.len(),
                out.len() == k,
                forall|j: int|
                    0 <= j < k ==> (#[trigger] out@[j])@ == iri_value(
                        opt_text(self.base_iri),
                        inner@[j]@,
                    ),
            decreases inner.len() - k,
        {
            out.push(self.check(inner[k].as_str()));
            k += 1;
        }
        assert(texts(out@) =~= value(self.expr(), texts(input@)));
        out
    }
}

impl BasicFunction for IriFunction {
    open(crate) spec fn model(&self) -> Expr {
        self.expr()
    }

    fn variable_names(&mut self, variable_names: &[String]) {
        self.bind(variable_names);
    }

    fn get_result_type(&self) -> (r: &str) {
        "iri"
    }

    fn exec(&self, input: &[String]) -> (r: Vec<String>) {
        self.eval(input)
    }
}

} // verus!
