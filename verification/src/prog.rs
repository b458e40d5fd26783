//! A parsed program: its declared language tag and its top-level forms.

use vstd::prelude::*;
use crate::sexpr::{Sexpr, TokInfo};

verus! {

/// A program ready for wellformedness checking: the language tag stripped
/// from its source, and the parsed top-level expressions in order.
pub struct Program {
    pub hashlang: String,
    pub body: Vec<Sexpr<TokInfo>>,
}

} // verus!
