//! The two term encodings the resolver's constant ids are embedded in: the
//! pre-elaboration ("holed") form, the post-elaboration ("infer") form with
//! live metavariables, explicit substitutions and equality constraints, and
//! the environments of top-level declarations both forms carry.
//!
//! A metavariable is an index into an external, append-only table kept by
//! the elaborator; the term tree itself holds no shared mutable state.

use vstd::prelude::*;

use crate::ident::{ConstId, Loc};

verus! {

/// A literal value embedded directly in a term as a leaf.
#[derive(Debug)]
pub enum Value {
    /// A natural-number literal.
    Nat(u64),
    /// A signed-integer literal.
    Int(i64),
    /// A string literal.
    Str(String),
}

/// A pre-elaboration term together with its source location.
#[derive(Debug)]
pub struct HTerm {
    pub term: Box<HoledTerm>,
    pub loc: Loc,
}

/// A lambda or Pi abstraction of the holed form: the domain and the body.
#[derive(Debug)]
pub struct HoledAbs {
    pub dom: HTerm,
    pub body: HTerm,
}

/// The pre-elaboration term form: unresolved holes are still present and
/// constants are referenced by the ids the resolver produced.  The
/// implicitness tag distinguishes explicit application and abstraction
/// (0) from implicit, elaborator-inferred ones.
#[derive(Debug)]
pub enum HoledTerm {
    /// Reference to a global constant.
    Const(ConstId),
    /// A bound variable, as a de Bruijn index.
    DBI(usize),
    /// The universe of types.
    Universe,
    /// Application of `s` to `t`.
    App { s: HTerm, t: HTerm, implicity: u8 },
    /// Lambda abstraction.
    Lam(HoledAbs, u8),
    /// Dependent function type.
    Pi(HoledAbs, u8),
    /// A local `let` introducing a sub-environment of declarations.
    Let { env: Box<HoledEnv>, t: HTerm },
    /// Case analysis over `t`, with an optional known datatype tag.
    Case { t: HTerm, cases: Vec<HTerm>, datatype: Option<ConstId> },
    /// An unresolved hole, anonymous or carrying a hole index.
    Hole(Option<usize>),
    /// A literal leaf.
    Value(Value),
}

/// A top-level declaration of the holed form.
#[derive(Debug)]
pub enum HoledConst {
    /// A definition: its right-hand side and its declared type.
    Def { rhs: HTerm, type_: HTerm },
    /// A datatype: its ordered, implicitness-tagged parameter list and its
    /// own type.
    DataType { param_types: Vec<(HTerm, u8)>, type_: HTerm },
    /// A constructor: the id of the owning datatype and its type.
    Ctor { datatype: ConstId, type_: HTerm },
}

/// The pre-elaboration environment: the declarations in id order, the
/// surface typing annotations, and the count of distinct named holes seen
/// so far, used to allocate fresh hole indices.
#[derive(Debug)]
pub struct HoledEnv {
    pub consts: Vec<(HoledConst, Loc)>,
    pub typings: Vec<(HTerm, HTerm)>,
    pub nof_named_hole: usize,
}

/// A post-elaboration term together with its source location.
#[derive(Debug)]
pub struct ETerm {
    pub term: Box<Expr>,
    pub loc: Loc,
}

/// A term paired with its type: `tower[0]` is the term, `tower[1]` its
/// type.
#[derive(Debug)]
pub struct InferTypedTerm {
    pub tower: Vec<ETerm>,
}

/// A lambda or Pi abstraction of the infer form.
#[derive(Debug)]
pub struct InferAbs {
    pub dom: InferTypedTerm,
    pub body: InferTypedTerm,
}

/// The post-elaboration term form: it mirrors the holed form, but holes
/// have become live metavariables, and it adds the explicit-substitution
/// wrapper and the equality-class node.
#[derive(Debug)]
pub enum Expr {
    /// Reference to a global constant.
    Const(ConstId),
    /// A bound variable, as a de Bruijn index.
    DBI(usize),
    /// The universe of types.
    Universe,
    /// Application of `s` to `t`.
    App { s: Box<InferTypedTerm>, t: Box<InferTypedTerm>, implicity: u8 },
    /// Lambda abstraction.
    Lam(Box<InferAbs>, u8),
    /// Dependent function type.
    Pi(Box<InferAbs>, u8),
    /// A local `let` introducing a sub-environment of declarations.
    Let { env: Vec<InferConstDecl>, t: Box<InferTypedTerm> },
    /// Case analysis over `t`, with an optional known datatype tag.
    Case { t: Box<InferTypedTerm>, cases: Vec<InferTypedTerm>, datatype: Option<ConstId> },
    /// A literal leaf.
    Value(Value),
    /// A live metavariable: an index into the elaborator's metavariable
    /// table.
    Infer { id: usize },
    /// An explicit substitution applied to a term.
    Subst(Box<Subst>, ETerm),
    /// A chain of terms asserted definitionally equal.
    Equal(Vec<ETerm>),
}

/// A top-level declaration of the infer form, with its type.
#[derive(Debug)]
pub struct InferConstDecl {
    pub c: InferConst,
    pub type_: ETerm,
}

/// The declaration proper of the infer form.
#[derive(Debug)]
pub enum InferConst {
    /// A definition: its right-hand side.
    Def(ETerm),
    /// A datatype: its ordered, implicitness-tagged parameter list.
    DataType { param_types: Vec<(ETerm, u8)> },
    /// A constructor: the id of the owning datatype.
    Ctor { datatype: ConstId },
}

/// The post-elaboration environment: declarations in id order.
pub type InferEnv = Vec<InferConstDecl>;

/// The elaboration context: the declarations, the local hypotheses, and
/// the pending typing annotations.
#[derive(Debug)]
pub struct InferCtx {
    pub consts: InferEnv,
    pub local: Vec<InferTypedTerm>,
    pub typings: Vec<(InferTypedTerm, InferTypedTerm)>,
}

/// An explicit substitution, composed algebraically instead of applied
/// eagerly: `Shift(n)` raises every free index by `n`; `Dot(e, rest)`
/// prepends `e` as the new index-0 binding and applies `rest` from index 1
/// on.
#[derive(Debug)]
pub enum Subst {
    Shift(usize),
    Dot(ETerm, Box<Subst>),
}

/// A unification constraint between metavariables: either two
/// metavariables are asserted equal, or one is solved by a term.
#[derive(Debug)]
pub enum Equal {
    /// The equivalence classes of the two metavariables are united.
    ToId(usize, usize),
    /// The metavariable is instantiated with the term.
    Instantiate(usize, ETerm),
}

} // verus!
