//! A small reader, evaluator and printer for symbolic expressions.
//!
//! Text is split into tokens ([`lexer`]), tokens are parsed into an
//! expression tree ([`reader`]), the tree is evaluated against a table of
//! built-in operations ([`eval`]) and the result is written back as text
//! ([`printer`]). Every step is specified over the models in [`types`].

pub mod types;
pub mod text;
pub mod lexer;
pub mod reader;
pub mod eval;
pub mod printer;
pub mod laws;

pub use types::{Mal, Token, ParseErr, EvalErr, Arity};
pub use lexer::{lex, tokenize};
pub use reader::{Scanner, parse, parse_form, parse_list, read};
pub use eval::{Func, Scope, Builtin, eval};
pub use printer::{print, print_list};
