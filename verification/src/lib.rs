//! Parsing of Lisp/Scheme-style source text into position-annotated
//! S-expression trees, together with a small wellformedness checker that
//! compares a parsed program against an expectation record.

pub mod text;
pub mod sexpr;
pub mod grammar;
pub mod errors;
pub mod sexpr_parser;
pub mod hashlang;
pub mod config;
pub mod prog;
pub mod wellformed;
