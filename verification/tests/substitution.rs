use resolver::ident::Loc;
use resolver::subst::subst_then_shift;
use resolver::term::{ETerm, Expr, Subst};

fn et(e: Expr) -> ETerm {
    ETerm { term: Box::new(e), loc: Loc { line: 0, column: 0 } }
}

#[test]
fn shifts_compose_by_addition() {
    let r = subst_then_shift(Subst::Shift(5), 2);
    assert!(matches!(r, Subst::Shift(7)));
    let r = subst_then_shift(Subst::Shift(0), 0);
    assert!(matches!(r, Subst::Shift(0)));
}

#[test]
fn dot_then_shift_becomes_dot_of_shifted_head() {
    // Dot(e, Shift(1)) composed with Shift(1) is Dot(e', Shift(2)) where
    // e' is e under an explicit Shift(1)
    let e = et(Expr::Const(3));
    let s = Subst::Dot(e, Box::new(Subst::Shift(1)));
    let r = subst_then_shift(s, 1);
    match r {
        Subst::Dot(head, rest) => {
            assert!(matches!(*rest, Subst::Shift(2)));
            match *head.term {
                Expr::Subst(sh, inner) => {
                    assert!(matches!(*sh, Subst::Shift(1)));
                    assert!(matches!(*inner.term, Expr::Const(3)));
                },
                other => panic!("head must be an explicit shift, got {:?}", other),
            }
        },
        other => panic!("composition must keep the Dot shape, got {:?}", other),
    }
}

#[test]
fn nested_dots_shift_every_binding() {
    let s = Subst::Dot(
        et(Expr::DBI(0)),
        Box::new(Subst::Dot(et(Expr::Const(1)), Box::new(Subst::Shift(4)))),
    );
    let r = subst_then_shift(s, 3);
    match r {
        Subst::Dot(h0, rest0) => {
            assert!(matches!(*h0.term, Expr::Subst(_, _)));
            match *rest0 {
                Subst::Dot(h1, rest1) => {
                    assert!(matches!(*h1.term, Expr::Subst(_, _)));
                    assert!(matches!(*rest1, Subst::Shift(7)));
                },
                other => panic!("inner Dot must survive, got {:?}", other),
            }
        },
        other => panic!("outer Dot must survive, got {:?}", other),
    }
}
