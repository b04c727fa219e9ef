//! A parser-combinator library and a small statement language built with it.
//!
//! A parser is a grammar tree (`grammar::Node`) rather than a closure: the
//! combinators build trees, and `grammar::run_node` runs a tree on an input.
//! `grammar::run` states what running a tree gives, and every combinator
//! states which tree it builds, so what a parser does on any input follows
//! from the contracts. Rules that refer to themselves (`program::Rule`) are
//! named in the tree and built each time they run.
//!
//! Values are carried through a parse as `value::Value`s and turned into the
//! parser's result type at the end (`repr::Repr`). A `Parser<T>` is well
//! formed (`Parser::wf`) when its tree yields only values that stand for a
//! `T`; every combinator keeps parsers well formed, so `parse` succeeds
//! exactly when the grammar does.

pub mod ast;
pub mod grammar;
pub mod laws;
pub mod lexical;
pub mod parser;
pub mod program;
pub mod repr;
pub mod typing;
pub mod value;

pub use ast::{Expression, Literal, Program, Statement, Token, Type};
pub use parser::{Mapped, Parser};
pub use program::Rule;
