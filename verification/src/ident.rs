//! Plain-value interfaces to the surface syntax: qualified identifiers
//! with their source locations, stable constant ids, and the structured
//! errors this layer reports to the elaborator.

use vstd::prelude::*;

verus! {

/// Stable, densely-allocated handle to one top-level declaration.
/// Allocated monotonically by the external registrar and never reused.
pub type ConstId = usize;

/// A source location attached to a qualified identifier by the parser.
/// Carried through registration so diagnostics can point at the source.
#[derive(Clone, Copy, PartialEq, Eq, Structural, Debug)]
pub struct Loc {
    pub line: usize,
    pub column: usize,
}

/// A qualified identifier as the parser emits it: an ordered sequence of
/// path segments (the domain), a leaf identifier, and where it was written.
#[derive(Clone, Debug)]
pub struct Ident {
    pub domain: Vec<String>,
    pub name: String,
    pub loc: Loc,
}

/// Structured errors surfaced by this layer to the elaborator.
#[derive(Clone, Debug)]
pub enum TranslateErr {
    /// A qualifier segment named a module that does not exist.
    UndefinedModule { name: String },
}

} // verus!
