//! A semantic compiler for a fragment of Lojban: it turns a flat arena of
//! parsed sentences into first-order formulas over interned symbols, and
//! serialises those formulas for an equality-saturation reasoner.
use vstd::prelude::*;

pub mod ast;
pub mod dictionary;
pub mod interner;
pub mod laws;
pub mod lexicon;
pub mod logic;
pub mod model;
pub mod reasoning;
pub mod semantic;
pub mod sexp;
pub mod syntax;

verus! {

} // verus!
