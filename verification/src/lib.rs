use vstd::prelude::*;

pub mod text;
pub mod error;
pub mod number;
pub mod value;
pub mod sequences;
pub mod collation;
pub mod settings;
pub mod output_format;
pub mod combined_format;
pub mod paths;
pub mod whitespace;
pub mod seq_builtins;
pub mod sort;
pub mod compare;
pub mod ast;
pub mod describe;
pub mod eval_util;
pub mod slicing;
pub mod strings;
pub mod version;
pub mod loops;
pub mod laws;
pub mod eval;
pub mod macro_args;
pub mod output_encoding;
pub mod number_output;
pub mod time_zone;
pub mod markup;
pub mod number_parse;
pub mod setting_directive;
pub mod template_settings;
pub mod element;

verus! {

} // verus!
