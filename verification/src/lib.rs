pub mod error;
pub mod fabric;
pub mod function;
pub mod mopper_options;
pub mod operator;
pub mod plan;
pub mod plan_laws;
pub mod plan_rewriter;
pub mod schema;
pub mod serializer;
pub mod sink;
pub mod source;
pub mod text;
pub mod text_set;
pub mod util;
