use vstd::prelude::*;
use crate::function::any_function::AnyFunction;
use crate::function::basic_function::{accepts, bound, value, BasicFunction, Expr};
use crate::text::texts;

verus! {

/// A text as `pct_str::PctString::encode` writes it with the encoder `URIReserved`: the
/// characters that a URI reserves, and `%`, as percent escapes.
pub uninterp spec fn uri_encoded(text: Seq<char>) -> Seq<char>;

/// Calls `pct_str::PctString::encode` with `URIReserved` on the characters of the text;
/// the result depends on the text alone.
#[verifier::external_body]
pub(crate) fn percent_encode(text: &str) -> (r: String)
    ensures
        r@ == uri_encoded(text@),
{
    pct_str::PctString::encode(text.chars(), pct_str::URIReserved).into_string()
}

/// An expression whose values are the values of the inner expression, percent-encoded.
pub struct UriEncodeFunction {
    pub(crate) inner_function: Box<AnyFunction>,
}

impl UriEncodeFunction {
    pub open(crate) spec fn expr(&self) -> Expr
        decreases self,
    {
        Expr::UriEncode(Box::new(self.inner_function.expr()))
    }

    pub fn _new(inner_function: Box<AnyFunction>) -> (r: Self)
        ensures
            r.model() == Expr::UriEncode(Box::new(inner_function.expr())),
    {
        UriEncodeFunction { inner_function }
    }

    /// Hands the header to the inner expression.
    pub fn bind(&mut self, variable_names: &[String])
        ensures
            final(self).expr() == bound(old(self).expr(), texts(variable_names@)),
        decreases *old(self),
    {
        self.inner_function.bind(variable_names);
    }

    /// Tells whether the expression can be evaluated on `input`.
    pub fn can_eval(&self, input: &[String]) -> (b: bool)
        ensures
            b == accepts(self.expr(), texts(input@)),
        decreases self,
    {
        self.inner_function.can_eval(input)
    }

    /// The values of the inner expression, each percent-encoded.
    pub fn eval(&self, input: &[String]) -> (r: Vec<String>)
        requires
            accepts(self.expr(), texts(input@)),
        ensures
            texts(r@) == value(self.expr(), texts(input@)),
        decreases self,
    {
        let inner = self.inner_function.eval(input);
        let mut out: Vec<String> = Vec::new();
        let mut k: usize = 0;
        while k < inner.len()
            invariant
                k <= inner.len(),
                out.len() == k,
                forall|j: int| 0 <= j < k ==> (#[trigger] out@[j])@ == uri_encoded(inner@[j]@),
            decreases inner.len() - k,
        {
            out.push(percent_encode(inner[k].as_str()));
            k += 1;
        }
        assert(texts(out@) =~= value(self.expr(), texts(input@)));
        out
    }
}

impl BasicFunction for UriEncodeFunction {
    open(crate) spec fn model(&self) -> Expr {
        self.expr()
    }

    fn variable_names(&mut self, variable_names: &[String]) {
        self.bind(variable_names);
    }

    fn get_result_type(&self) -> (r: &str) {
        "str"
    }

    fn exec(&self, input: &[String]) -> (r: Vec<String>) {
        self.eval(input)
    }
}

} // verus!
