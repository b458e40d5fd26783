//! The closed error taxonomy of the parser and the expectation-file reader.

use vstd::prelude::*;
use vstd::string::*;
use crate::sexpr::{TokInfo, tok_text};

verus! {

/// An error produced while parsing source text or an expectation file.
#[derive(Debug)]
pub enum ParsingError {
    /// A token was encountered in a context where it cannot be interpreted:
    /// the position of the offending token, its text, and an optional
    /// explanation.
    InvalidSyntax(TokInfo, String, Option<String>),
    /// The tokenization stage rejected the input outright, with no single
    /// token to blame: an unexpected end of input, or an unterminated string
    /// or block comment.
    GrammarFailure(String),
    /// The input consisted solely of a skipped datum comment; callers may
    /// treat this as an empty result rather than an error.
    NothingToParse,
    /// The expectation file did not match its fixed two-clause shape.
    BadWellformedConfig,
}

/// The rendering of a parsing error.
pub open spec fn parsing_error_text(e: ParsingError) -> Seq<char> {
    match e {
        ParsingError::InvalidSyntax(pos, token, msg) => {
            let base = "Invalid syntax `"@ + token@ + "` : "@ + tok_text(pos);
            match msg {
                Some(m) => base + "Error: "@ + m@,
                None => base,
            }
        },
        ParsingError::GrammarFailure(m) => "Grammar failure:\n "@ + m@,
        ParsingError::NothingToParse => "Nothing to parse"@,
        ParsingError::BadWellformedConfig => "Bad wellformed config"@,
    }
}

impl ParsingError {
    /// Renders the error for display.
    pub fn to_text(&self) -> (r: String)
        ensures
            r@ == parsing_error_text(*self),
    {
        match self {
            ParsingError::InvalidSyntax(pos, token, msg) => {
                let mut s = String::from_str("Invalid syntax `");
                s.append(token.as_str());
                s.append("` : ");
                let t = pos.to_text();
                s.append(t.as_str());
                match msg {
                    Some(m) => {
                        s.append("Error: ");
                        s.append(m.as_str());
                    },
                    None => {},
                }
                s
            },
            ParsingError::GrammarFailure(m) => {
                let mut s = String::from_str("Grammar failure:\n ");
                s.append(m.as_str());
                s
            },
            ParsingError::NothingToParse => String::from_str("Nothing to parse"),
            ParsingError::BadWellformedConfig => String::from_str("Bad wellformed config"),
        }
    }
}

} // verus!
