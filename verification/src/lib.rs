//! A parser for untyped lambda-calculus terms, and a renderer that is its
//! inverse.
//!
//! Every composite term is written in parentheses: an abstraction as
//! `(\x.M)`, an application as `(M$N)`, a variable as its bare name. A name
//! begins with a letter or an underscore and goes on with letters, digits and
//! underscores. Whitespace is insignificant everywhere and is removed before
//! parsing begins. A text parses only as a whole: a term followed by more
//! text is rejected.
//!
//! [`parser::parse`] and [`term::LambdaTerm::render`] are the entry points.
//! Their contracts are stated over [`term::Term`], the mathematical model of
//! a term, and [`laws`] and [`shape`] prove what follows from them.

pub mod charset;
pub mod term;
pub mod token;
pub mod grammar;
pub mod parser;
pub mod laws;
pub mod shape;
