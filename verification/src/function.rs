pub mod any_function;
pub mod basic_function;
pub mod blank_node;
pub mod constant;
pub mod iri;
pub mod literal;
pub mod reference;
pub mod template_function_value;
pub mod template_parser;
pub mod template_string;
pub mod uri_encode;
