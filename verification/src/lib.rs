//! Execution engine for a small keyword-driven scripting language.
//!
//! Source text is organised into named sections, each an ordered list of
//! commands. This crate holds the typed value model, the expression
//! evaluator (symbol substitution, string tokenization, numeric
//! evaluation), and the statement-level interpreter: section storage,
//! program counter, comparison-flag register, jump resolution and the
//! variable table. Pure arithmetic inside numeric expressions is delegated
//! to the `meval` crate; reading and writing lines belongs to the caller,
//! which drives the machine through [`interpreter::Environment::step`].

pub mod error;
pub mod interpreter;
pub mod num_text;
pub mod text;
pub mod value;

pub use error::Error;
pub use interpreter::{CmpFlag, Command, Environment, JumpCond, Section, SourceUnit, StepEvent};
pub use value::{expand_sym_list, expand_syms, parse_expr, Value, ValueType};
