//! The core of a tree-walking interpreter for a small statically-typed
//! imperative language.
//!
//! Source text becomes tokens in [`lexer`]. A parser, which is not part of
//! this library, makes the syntax tree of [`ast`] from them. The
//! [`resolver`] walks the tree before it runs: it rejects misplaced `break`
//! and `return` and names declared twice, and records how far each variable
//! read is from its declaration; what it finds does not depend on where
//! the tokens stand ([`places`]). The [`interpreter`] runs the tree against
//! the scopes of [`env`]; what running means is laid down in [`semantics`].
//!
//! Numbers are doubles. The library carries them as bit patterns and never
//! computes on them: arithmetic, like the functions of the standard
//! library, is the business of the [`host`]. Nothing is taken on trust of
//! a host: what the evaluator does is proved for every answer that a host
//! may give.
//!
//! Every function returns its diagnostics as values; none ends the process.

pub mod errors;
pub mod text;
pub mod token;
pub mod lexer;
pub mod ast;
pub mod value;
pub mod env;
pub mod host;
pub mod display;
pub mod semantics;
pub mod budget;
pub mod balance;
pub mod literals;
pub mod interpreter;
pub mod stdlib;
pub mod resolver;
pub mod places;
