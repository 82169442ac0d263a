pub mod extension;
pub mod join;
pub mod join_laws;
