pub mod std_out;
pub mod writer_sink;
