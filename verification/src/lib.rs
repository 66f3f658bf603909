//! Truth tables for propositional formulas.
//!
//! A formula is written over single-letter variables with `!`, `&`, `|`, `^`,
//! `->` and `<->`, and parentheses: `(A & B) -> (C | !D)`.
//!
//! - [`lexer`] splits the text of a formula into tokens.
//! - [`parser`] evaluates the tokens under an assignment, in one recursive
//!   descent with one level for each connective.
//! - [`variables`] reads the variables off the text, and [`table`] evaluates
//!   the formula under each assignment of them.
//!
//! The contracts are stated over a mathematical model: [`formula`] defines
//! formulas as trees with their truth value, [`grammar`] the tree that a
//! sequence of tokens denotes. [`notation`] writes a tree back as tokens and
//! proves that the grammar reads them as the same tree; [`laws`] holds what
//! follows for every formula and every assignment.

pub mod token;
pub mod lexer;
pub mod formula;
pub mod assignment;
pub mod grammar;
pub mod notation;
pub mod parser;
pub mod variables;
pub mod table;
pub mod laws;

pub use assignment::Assignment;
pub use grammar::{Expected, ParseError, Trailing};
pub use lexer::{tokenize, LexError, LexErrorKind};
pub use parser::{evaluate, evaluate_with, Parser};
pub use table::{truth_table, Row, TableError, TruthTable, MAX_VARIABLES};
pub use token::Token;
pub use variables::extract_variables;
