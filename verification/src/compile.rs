//! The compiler from parsed grammar sources to parser code.
//!
//! Each block of a grammar becomes a function `_blockfn_N(_start, _text)`
//! whose body matches the block's lines in order. The code is written as
//! `quote::Tokens`, one token or group of tokens at a time. `model` states
//! what every step of the compiler does to its state and which code it
//! writes; `steps` does it.
pub mod code;
pub mod names;
pub mod values;
pub mod state;
pub mod model;
pub mod steps;
pub mod output;

pub use self::names::{sanitize_regex, SecNext};
pub use self::values::{DefPart, IntoRec, StaticValue, Value, CaptureDat, DynValue};
pub use self::state::{BlockDat, CompileData};
pub use self::steps::{
    DelayedCompile, gen_static_value_delayed, gen_static_value, gen_value, gen_expr_vals,
    gen_expr_val, gen_token_output, compile_name_expr, compile_expr, compile_from_iter,
};
pub use self::output::compile;
