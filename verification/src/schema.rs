use vstd::prelude::*;

verus! {

/// A value-construction expression as a plan describes it.
pub enum Function {
    Constant { value: String },
    Reference { value: String },
    TemplateString { value: String },
    TemplateFunctionValue { template: String, variable_function_pairs: Vec<(String, Function)> },
    Iri { base_iri: Option<String>, inner_function: Box<Function> },
    Literal { inner_function: Box<Function> },
    BlankNode { inner_function: Box<Function> },
    UriEncode { inner_function: Box<Function> },
}

/// The mathematical content of a [`Function`].
pub enum FunctionView {
    Constant(Seq<char>),
    Reference(Seq<char>),
    TemplateString(Seq<char>),
    TemplateFunctionValue(Seq<char>, Seq<(Seq<char>, FunctionView)>),
    Iri(Option<Seq<char>>, Box<FunctionView>),
    Literal(Box<FunctionView>),
    BlankNode(Box<FunctionView>),
    UriEncode(Box<FunctionView>),
}

impl Function {
    pub open spec fn view(&self) -> FunctionView
        decreases self,
    {
        match self {
            Function::Constant { value } => FunctionView::Constant(value@),
            Function::Reference { value } => FunctionView::Reference(value@),
            Function::TemplateString { value } => FunctionView::TemplateString(value@),
            Function::TemplateFunctionValue { template, variable_function_pairs } =>
                FunctionView::TemplateFunctionValue(
                    template@,
                    Seq::new(
                        variable_function_pairs.len() as nat,
                        |i: int|
                            if 0 <= i < variable_function_pairs.len() {
                                (variable_function_pairs[i].0@, variable_function_pairs[i].1.view())
                            } else {
                                (Seq::empty(), FunctionView::Constant(Seq::empty()))
                            },
                    ),
                ),
            Function::Iri { base_iri, inner_function } => FunctionView::Iri(
                match base_iri {
                    Some(b) => Some(b@),
                    None => None,
                },
                Box::new(inner_function.view()),
            ),
            Function::Literal { inner_function } => FunctionView::Literal(
                Box::new(inner_function.view()),
            ),
            Function::BlankNode { inner_function } => FunctionView::BlankNode(
                Box::new(inner_function.view()),
            ),
            Function::UriEncode { inner_function } => FunctionView::UriEncode(
                Box::new(inner_function.view()),
            ),
        }
    }

    /// A copy with the same content.
    #[verifier::loop_isolation(false)]
    pub fn duplicate(&self) -> (r: Function)
        ensures
            r@ == self@,
        decreases self,
    {
        match self {
            Function::Constant { value } => Function::Constant { value: value.clone() },
            Function::Reference { value } => Function::Reference { value: value.clone() },
            Function::TemplateString { value } => Function::TemplateString { value: value.clone() },
            Function::TemplateFunctionValue { template, variable_function_pairs } => {
                let mut pairs: Vec<(String, Function)> = Vec::new();
                let mut i: usize = 0;
                while i < variable_function_pairs.len()
                    invariant
                        i <= variable_function_pairs.len(),
                        pairs.len() == i,
                        forall|j: int|
                            0 <= j < i ==> pairs[j].0@ == variable_function_pairs[j].0@
                                && pairs[j].1@ == variable_function_pairs[j].1@,
                    decreases variable_function_pairs.len() - i,
                {
                    let p = &variable_function_pairs[i];
                    proof {
                        broadcast use vstd::std_specs::vec::axiom_vec_index_decreases;
                        assert(decreases_to!(variable_function_pairs => variable_function_pairs[i as int]));
                        assert(decreases_to!(variable_function_pairs[i as int] => variable_function_pairs[i as int].1));
                    }
                    pairs.push((p.0.clone(), p.1.duplicate()));
                    i += 1;
                }
                let r = Function::TemplateFunctionValue {
                    template: template.clone(),
                    variable_function_pairs: pairs,
                };
                assert(r@->TemplateFunctionValue_1 =~= self@->TemplateFunctionValue_1);
                r
            },
            Function::Iri { base_iri, inner_function } => Function::Iri {
                base_iri: match base_iri {
                    Some(b) => Some(b.clone()),
                    None => None,
                },
                inner_function: Box::new(inner_function.duplicate()),
            },
            Function::Literal { inner_function } => Function::Literal {
                inner_function: Box::new(inner_function.duplicate()),
            },
            Function::BlankNode { inner_function } => Function::BlankNode {
                inner_function: Box::new(inner_function.duplicate()),
            },
            Function::UriEncode { inner_function } => Function::UriEncode {
                inner_function: Box::new(inner_function.duplicate()),
            },
        }
    }
}

/// Where a source reads from or a target writes to.
#[derive(Clone, Copy, Debug, PartialEq, Eq, Structural)]
pub enum IOType {
    File,
    StdOut,
    Other,
}

/// How a source iterates over its input.
#[derive(Clone, Copy, Debug, PartialEq, Eq, Structural)]
pub enum ReferenceFormulation {
    CSVRows,
    Other,
}

/// The format a serializer writes.
#[derive(Clone, Copy, Debug, PartialEq, Eq, Structural)]
pub enum DataFormat {
    NTriples,
    NQuads,
    Other,
}

/// The kind of a join.
#[derive(Clone, Copy, Debug, PartialEq, Eq, Structural)]
pub enum JoinType {
    InnerJoin,
    Other,
}

/// A source's configuration. Two sources with the same `fingerprint` read the same input.
pub struct Source {
    pub fingerprint: u64,
    pub source_type: IOType,
    pub path: String,
    pub reference_formulation: ReferenceFormulation,
}

/// A target's configuration. Two targets with the same `fingerprint` write to the same place.
pub struct Target {
    pub fingerprint: u64,
    pub target_type: IOType,
}

/// The attributes a projection keeps.
pub struct Projection {
    pub projection_attributes: Vec<String>,
}

/// A join's configuration: the attribute pairs to match, left then right, and the alias
/// that prefixes the attributes of the right side.
pub struct Join {
    pub left_right_attr_pairs: Vec<(String, String)>,
    pub join_type: JoinType,
    pub join_alias: String,
}

/// The named expressions of an extension, in the order of its output columns.
pub struct Extend {
    pub extend_pairs: Vec<(String, Function)>,
}

/// A serializer's template and format.
pub struct Serializer {
    pub template: String,
    pub format: DataFormat,
}

/// An operator of a plan.
#[allow(inconsistent_fields)]
pub enum Operator {
    SourceOp { config: Source },
    ProjectOp { config: Projection },
    FragmentOp,
    JoinOp { config: Join },
    ExtendOp { config: Extend },
    SerializerOp { config: Serializer },
    TargetOp { config: Target },
}

/// The mathematical content of an [`Operator`].
pub enum OperatorView {
    SourceOp { fingerprint: u64, source_type: IOType, path: Seq<char>, reference_formulation: ReferenceFormulation },
    ProjectOp { projection_attributes: Seq<Seq<char>> },
    FragmentOp,
    JoinOp { left_right_attr_pairs: Seq<(Seq<char>, Seq<char>)>, join_type: JoinType, join_alias: Seq<char> },
    ExtendOp { extend_pairs: Seq<(Seq<char>, FunctionView)> },
    SerializerOp { template: Seq<char>, format: DataFormat },
    TargetOp { fingerprint: u64, target_type: IOType },
}

/// The texts of a list of pairs of strings.
pub open spec fn pair_texts(v: Seq<(String, String)>) -> Seq<(Seq<char>, Seq<char>)> {
    Seq::new(v.len(), |i: int| (v[i].0@, v[i].1@))
}

/// The content of a list of named expressions.
pub open spec fn named_functions(v: Seq<(String, Function)>) -> Seq<(Seq<char>, FunctionView)> {
    Seq::new(v.len(), |i: int| (v[i].0@, v[i].1@))
}

impl Operator {
    pub open spec fn view(&self) -> OperatorView {
        match self {
            Operator::SourceOp { config } => OperatorView::SourceOp {
                fingerprint: config.fingerprint,
                source_type: config.source_type,
                path: config.path@,
                reference_formulation: config.reference_formulation,
            },
            Operator::ProjectOp { config } => OperatorView::ProjectOp {
                projection_attributes: crate::text::texts(config.projection_attributes@),
            },
            Operator::FragmentOp => OperatorView::FragmentOp,
            Operator::JoinOp { config } => OperatorView::JoinOp {
                left_right_attr_pairs: pair_texts(config.left_right_attr_pairs@),
                join_type: config.join_type,
                join_alias: config.join_alias@,
            },
            Operator::ExtendOp { config } => OperatorView::ExtendOp {
                extend_pairs: named_functions(config.extend_pairs@),
            },
            Operator::SerializerOp { config } => OperatorView::SerializerOp {
                template: config.template@,
                format: config.format,
            },
            Operator::TargetOp { config } => OperatorView::TargetOp {
                fingerprint: config.fingerprint,
                target_type: config.target_type,
            },
        }
    }

    /// A copy with the same content.
    pub fn duplicate(&self) -> (r: Operator)
        ensures
            r@ == self@,
    {
        match self {
            Operator::SourceOp { config } => Operator::SourceOp {
                config: Source {
                    fingerprint: config.fingerprint,
                    source_type: config.source_type,
                    path: config.path.clone(),
                    reference_formulation: config.reference_formulation,
                },
            },
            Operator::ProjectOp { config } => Operator::ProjectOp {
                config: Projection {
                    projection_attributes: crate::text::copy_strings(
                        config.projection_attributes.as_slice(),
                    ),
                },
            },
            Operator::FragmentOp => Operator::FragmentOp,
            Operator::JoinOp { config } => {
                let mut pairs: Vec<(String, String)> = Vec::new();
                let mut i: usize = 0;
                while i < config.left_right_attr_pairs.len()
                    invariant
                        i <= config.left_right_attr_pairs.len(),
                        pairs.len() == i,
                        forall|j: int|
                            0 <= j < i ==> pairs[j].0@ == config.left_right_attr_pairs[j].0@
                                && pairs[j].1@ == config.left_right_attr_pairs[j].1@,
                    decreases config.left_right_attr_pairs.len() - i,
                {
                    let p = &config.left_right_attr_pairs[i];
                    pairs.push((p.0.clone(), p.1.clone()));
                    i += 1;
                }
                assert(pair_texts(pairs@) =~= pair_texts(config.left_right_attr_pairs@));
                Operator::JoinOp {
                    config: Join {
                        left_right_attr_pairs: pairs,
                        join_type: config.join_type,
                        join_alias: config.join_alias.clone(),
                    },
                }
            },
            Operator::ExtendOp { config } => {
                let mut pairs: Vec<(String, Function)> = Vec::new();
                let mut i: usize = 0;
                while i < config.extend_pairs.len()
                    invariant
                        i <= config.extend_pairs.len(),
                        pairs.len() == i,
                        forall|j: int|
                            0 <= j < i ==> pairs[j].0@ == config.extend_pairs[j].0@ && pairs[j].1@
                                == config.extend_pairs[j].1@,
                    decreases config.extend_pairs.len() - i,
                {
                    let p = &config.extend_pairs[i];
                    pairs.push((p.0.clone(), p.1.duplicate()));
                    i += 1;
                }
                assert(named_functions(pairs@) =~= named_functions(config.extend_pairs@));
                Operator::ExtendOp { config: Extend { extend_pairs: pairs } }
            },
            Operator::SerializerOp { config } => Operator::SerializerOp {
                config: Serializer { template: config.template.clone(), format: config.format },
            },
            Operator::TargetOp { config } => Operator::TargetOp {
                config: Target { fingerprint: config.fingerprint, target_type: config.target_type },
            },
        }
    }
}

} // verus!
