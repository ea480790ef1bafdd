//! The flat sentence arena that the compiler reads: selbri, sumti and
//! sentences refer to one another by index.
use vstd::prelude::*;

verus! {

/// SE-family conversion: swap the first place with the second to fifth.
#[derive(Clone, Copy, Debug, PartialEq, Eq)]
pub enum Conversion {
    Se,
    Te,
    Ve,
    Xe,
}

/// Selbri-level logical connectives: and, or, iff, xor.
#[derive(Clone, Copy, Debug, PartialEq, Eq)]
pub enum Connective {
    Je,
    Ja,
    Jo,
    Ju,
}

/// Articles: `lo` quantifies existentially, `le` and `la` refer.
#[derive(Clone, Copy, Debug, PartialEq, Eq)]
pub enum Gadri {
    Lo,
    Le,
    La,
}

/// Place tags naming the first to fifth argument place.
#[derive(Clone, Copy, Debug, PartialEq, Eq)]
pub enum PlaceTag {
    Fa,
    Fe,
    Fi,
    Fo,
    Fu,
}

/// A relation term; the `u32` fields index the selbri arena, the bound
/// arguments of `WithArgs` index the sumti arena.
#[derive(Clone, Debug, PartialEq)]
pub enum Selbri {
    Root(String),
    Tanru(u32, u32),
    Converted(Conversion, u32),
    Negated(u32),
    Grouped(u32),
    WithArgs(u32, Vec<u32>),
    Connected(u32, Connective, u32),
    Compound(Vec<String>),
}

/// A relative clause: the sentence that restricts its head noun.
#[derive(Clone, Copy, Debug, PartialEq, Eq)]
pub struct RelativeClause {
    pub body_sentence: u32,
}

/// An argument term. `Description` indexes the selbri arena, `Tagged` and
/// the first field of `Restricted` the sumti arena.
#[derive(Clone, Debug, PartialEq)]
pub enum Sumti {
    ProSumti(String),
    Name(String),
    Description(Gadri, u32),
    Tagged(PlaceTag, u32),
    Restricted(u32, RelativeClause),
    QuotedLiteral(String),
    Unspecified,
}

/// One sentence: a relation with the terms before and after it.
#[derive(Clone, Debug, PartialEq)]
pub struct Bridi {
    pub relation: u32,
    pub head_terms: Vec<u32>,
    pub tail_terms: Vec<u32>,
    pub negated: bool,
}

/// The three arenas of a parsed utterance.
#[derive(Clone, Debug, PartialEq)]
pub struct AstBuffer {
    pub selbris: Vec<Selbri>,
    pub sumtis: Vec<Sumti>,
    pub sentences: Vec<Bridi>,
}

/// The arenas as mathematical sequences.
pub struct Arena {
    pub selbris: Seq<Selbri>,
    pub sumtis: Seq<Sumti>,
    pub sentences: Seq<Bridi>,
}

} // verus!
