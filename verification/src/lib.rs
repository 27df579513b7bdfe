pub mod codegen;
pub mod expand;
pub mod format;
pub mod formatter;
pub mod laws;
pub mod merge;
pub mod parse;
pub mod readback;
pub mod step_laws;
pub mod text;
pub mod token;
pub mod types;
pub mod write_fn;
