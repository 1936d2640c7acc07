//! The algebra of explicit substitutions.
//!
//! A substitution acts on free de Bruijn indices: `Shift(n)` renames index
//! `i` to `i + n`, and `Dot(e, rest)` maps index 0 to the term `e` and
//! index `i + 1` to whatever `rest` maps `i` to.  Substitutions compose
//! instead of being applied eagerly: composing with a following shift
//! raises every renamed index and wraps every term binding in an explicit
//! `Shift` node of the term language itself.

use vstd::prelude::*;

use crate::term::{ETerm, Expr, Subst};

verus! {

/// What a substitution does to one free de Bruijn index: either it binds
/// the index to a term, or it renames it to another index.
pub enum SubstImage {
    Term(ETerm),
    Index(int),
}

/// The image of free index `i` under `s`.
pub open spec fn subst_image(s: Subst, i: nat) -> SubstImage
    decreases s,
{
    match s {
        Subst::Shift(n) => SubstImage::Index(i + n),
        Subst::Dot(e, rest) => if i == 0 {
            SubstImage::Term(e)
        } else {
            subst_image(*rest, (i - 1) as nat)
        },
    }
}

/// `outer` is exactly `inner` under an explicit `Shift(k)` wrapper, at the
/// same location.
pub open spec fn is_shifted_term(outer: ETerm, inner: ETerm, k: usize) -> bool {
    &&& outer.loc == inner.loc
    &&& *outer.term matches Expr::Subst(sh, e2) && *sh == Subst::Shift(k) && e2 == inner
}

/// `img2` is `img1` pushed through a following `Shift(k)`: a renamed index
/// is raised by `k`, and a term binding gains an explicit `Shift(k)`
/// wrapper.
pub open spec fn image_shifted_by(img1: SubstImage, img2: SubstImage, k: usize) -> bool {
    match img1 {
        SubstImage::Index(n) => img2 == SubstImage::Index(n + k),
        SubstImage::Term(e) => img2 matches SubstImage::Term(e2) && is_shifted_term(e2, e, k),
    }
}

/// Every shift amount in `s` stays within `usize` when raised by `k`.
pub open spec fn shifts_fit(s: Subst, k: usize) -> bool
    decreases s,
{
    match s {
        Subst::Shift(n) => n + k <= usize::MAX,
        Subst::Dot(_, rest) => shifts_fit(*rest, k),
    }
}

/// Composes `s` with a following `Shift(k)`: the result acts on every free
/// index exactly as applying `s` and then raising the outcome by `k`.  In
/// particular, composing `Dot(e, Shift(1))` with `Shift(1)` yields
/// `Dot(e', Shift(2))` where `e'` is `e` under an explicit `Shift(1)`.
pub fn subst_then_shift(s: Subst, k: usize) -> (r: Subst)
    requires
        shifts_fit(s, k),
    ensures
        forall|i: nat| image_shifted_by(subst_image(s, i), subst_image(r, i), k),
        match s {
            Subst::Shift(n) => r == Subst::Shift((n + k) as usize),
            Subst::Dot(_, _) => true,
        },
        k == 1 ==> match s {
            Subst::Dot(h, r0) => *r0 == Subst::Shift(1) ==> (r matches Subst::Dot(h2, r2)
                && is_shifted_term(h2, h, 1) && *r2 == Subst::Shift(2)),
            Subst::Shift(_) => true,
        },
    decreases s,
{
    match s {
        Subst::Shift(n) => {
            let r = Subst::Shift(n + k);
            proof {
                assert forall|i: nat| image_shifted_by(
                    subst_image(Subst::Shift(n), i),
                    subst_image(r, i),
                    k,
                ) by {
                    assert(subst_image(Subst::Shift(n), i) == SubstImage::Index(i + n));
                    assert(subst_image(r, i) == SubstImage::Index(i + n + k));
                }
            }
            r
        },
        Subst::Dot(e, rest) => {
            let loc = e.loc;
            let ghost e0 = e;
            let ghost rest0 = *rest;
            let wrapped = ETerm { term: Box::new(Expr::Subst(Box::new(Subst::Shift(k)), e)), loc };
            let composed = subst_then_shift(*rest, k);
            let ghost composed0 = composed;
            let r = Subst::Dot(wrapped, Box::new(composed));
            proof {
                assert forall|i: nat| image_shifted_by(
                    subst_image(Subst::Dot(e0, Box::new(rest0)), i),
                    subst_image(r, i),
                    k,
                ) by {
                    if i == 0 {
                        assert(subst_image(r, 0) matches SubstImage::Term(w) && is_shifted_term(
                            w,
                            e0,
                            k,
                        ));
                    } else {
                        assert(subst_image(Subst::Dot(e0, Box::new(rest0)), i) == subst_image(
                            rest0,
                            (i - 1) as nat,
                        ));
                        assert(subst_image(r, i) == subst_image(composed0, (i - 1) as nat));
                        assert(image_shifted_by(
                            subst_image(rest0, (i - 1) as nat),
                            subst_image(composed0, (i - 1) as nat),
                            k,
                        ));
                    }
                }
            }
            r
        },
    }
}

/// The substitution law: `Dot(e, Shift(1))` composed with a following
/// `Shift(1)` acts on every free index exactly as `Dot(e', Shift(2))`,
/// where `e'` is `e` under an explicit `Shift(1)`; and on every index
/// above zero the head binding plays no part at all, so there even
/// `Dot(e, Shift(2))` with the head unshifted agrees — which is why the
/// two are observationally equivalent on terms whose only free index is
/// zero, once the head is shifted accordingly.
pub proof fn lemma_dot_shift(e: ETerm, s1: Subst, s2: Subst, i: nat)
    requires
        s1 matches Subst::Dot(h1, r1) && h1 == e && *r1 == Subst::Shift(1),
        s2 matches Subst::Dot(h2, r2) && is_shifted_term(h2, e, 1) && *r2 == Subst::Shift(2),
    ensures
        image_shifted_by(subst_image(s1, i), subst_image(s2, i), 1),
        i >= 1 ==> subst_image(s1, i) == SubstImage::Index(i as int) && subst_image(s2, i)
            == SubstImage::Index(i as int + 1),
{
    if i == 0 {
        assert(subst_image(s1, 0) matches SubstImage::Term(t) && t == e);
        assert(subst_image(s2, 0) matches SubstImage::Term(t2) && is_shifted_term(t2, e, 1));
    } else {
        assert(subst_image(s1, i) == subst_image(Subst::Shift(1), (i - 1) as nat));
        assert(subst_image(s2, i) == subst_image(Subst::Shift(2), (i - 1) as nat));
        assert(subst_image(Subst::Shift(1), (i - 1) as nat) == SubstImage::Index(i as int));
        assert(subst_image(Subst::Shift(2), (i - 1) as nat) == SubstImage::Index(i as int + 1));
    }
}

} // verus!
