//! Name resolution and core term representation for a dependently-typed
//! language kernel: a module tree of hierarchical namespaces, a lexical
//! scope chain resolving qualified identifiers to stable constant ids,
//! and the pre- and post-elaboration term encodings (with explicit
//! substitutions and unification constraints) that carry those ids.

pub mod ident;
pub mod modules;
pub mod term;
pub mod subst;
pub mod formatter;
