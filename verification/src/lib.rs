//! Front end of a small C-like scripting language: a lexer, a recursive-descent
//! parser with precedence climbing, the syntax tree they produce, and the
//! positioned errors and lint diagnostics reported along the way.
//!
//! Every executable function carries a contract over a mathematical model of
//! its data: source text is a sequence of characters, a token stream is the
//! sequence of its significant tokens, and a syntax tree is its view.
//!
//! - [`lexer`]: the tokens, the lexical grammar (`lexer::scan`) and
//!   `tokenize`; `lexer::laws` proves that white space and comments between
//!   tokens change no token, `lexer::spelled` what the lexer makes of a
//!   source that is spelled out.
//! - [`ast`]: operators, values, expressions and statements, each with the
//!   grammar that says what its parser returns. `ast::reading` states without
//!   the parser what it means that a tree is a reading of tokens and proves
//!   the parser sound for it; `ast::relax` and `ast::shape` prove what holds
//!   of every stream that is accepted.
//! - [`parser`]: the cursor with its recursion guard, the configuration, the
//!   entry points, and under `parser::analyzer` the positions, errors,
//!   warnings, diagnostics and the naming lint.
//! - [`laws`]: precedence and associativity, the recursion ceiling, trailing
//!   commas, and the invariance of programs under white space and comments.
//! - [`vscode`]: the flat records that an editor needs.
//! - [`text`]: byte offsets, string building and decimal numbers.

pub mod ast;
pub mod laws;
pub mod lexer;
pub mod parser;
pub mod text;
pub mod vscode;
