use resolver::formatter::{fmt_infer_env, write_arg, write_indent, InferEnvDummy};
use resolver::ident::Loc;
use resolver::modules::Name;
use resolver::term::{
    ETerm, Equal, Expr, HTerm, HoledAbs, HoledConst, HoledEnv, HoledTerm, InferConst,
    InferConstDecl, InferCtx, InferTypedTerm, Subst, Value,
};

fn loc() -> Loc {
    Loc { line: 0, column: 0 }
}

fn ht(t: HoledTerm) -> HTerm {
    HTerm { term: Box::new(t), loc: loc() }
}

fn et(e: Expr) -> ETerm {
    ETerm { term: Box::new(e), loc: loc() }
}

fn typed(e: Expr, ty: Expr) -> InferTypedTerm {
    InferTypedTerm { tower: vec![et(e), et(ty)] }
}

#[test]
fn indent_and_arg_helpers() {
    let mut out = String::new();
    write_indent(&mut out, 3);
    assert_eq!(out, "\t\t\t");
    let mut out = String::new();
    write_arg(&mut out, "x", 0);
    assert_eq!(out, "x");
    let mut out = String::new();
    write_arg(&mut out, "x", 2);
    assert_eq!(out, "{{x}}");
}

#[test]
fn values_render_with_signs_and_quotes() {
    assert_eq!(Value::Nat(0).fmt(), "0");
    assert_eq!(Value::Nat(42).fmt(), "42");
    assert_eq!(Value::Int(7).fmt(), "+7");
    assert_eq!(Value::Int(0).fmt(), "+0");
    assert_eq!(Value::Int(-5).fmt(), "-5");
    assert_eq!(Value::Int(i64::MIN).fmt(), "-9223372036854775808");
    assert_eq!(Value::Str("hi".to_string()).fmt(), "\"hi\"");
}

#[test]
fn holed_leaves() {
    assert_eq!(HoledTerm::Const(3).fmt(), "#3");
    assert_eq!(HoledTerm::DBI(0).fmt(), "@0");
    assert_eq!(HoledTerm::Universe.fmt(), "Type");
    assert_eq!(HoledTerm::Hole(None).fmt(), "?");
    assert_eq!(HoledTerm::Hole(Some(12)).fmt(), "?12");
    assert_eq!(HoledTerm::Value(Value::Nat(1)).fmt(), "1");
}

#[test]
fn holed_application_and_abstractions() {
    let app = HoledTerm::App { s: ht(HoledTerm::Const(1)), t: ht(HoledTerm::DBI(0)), implicity: 1 };
    assert_eq!(app.fmt(), "#1 {@0}");
    let lam = HoledTerm::Lam(
        HoledAbs { dom: ht(HoledTerm::Universe), body: ht(HoledTerm::DBI(0)) },
        0,
    );
    assert_eq!(lam.fmt(), "(\\Type -> @0)");
    let pi = HoledTerm::Pi(
        HoledAbs { dom: ht(HoledTerm::Universe), body: ht(HoledTerm::Universe) },
        0,
    );
    assert_eq!(pi.fmt(), "((Type) -> Type)");
    let pi_implicit = HoledTerm::Pi(
        HoledAbs { dom: ht(HoledTerm::Universe), body: ht(HoledTerm::Universe) },
        1,
    );
    assert_eq!(pi_implicit.fmt(), "({Type} -> Type)");
}

#[test]
fn holed_let_and_case() {
    let env = HoledEnv { consts: Vec::new(), typings: Vec::new(), nof_named_hole: 2 };
    let term = HoledTerm::Let { env: Box::new(env), t: ht(HoledTerm::Const(0)) };
    assert_eq!(term.fmt(), "let {\n\t[nof_named_hole: 2]\n} in (#0)");
    let case = HoledTerm::Case {
        t: ht(HoledTerm::DBI(0)),
        cases: vec![ht(HoledTerm::Const(1)), ht(HoledTerm::Const(2))],
        datatype: Some(5),
    };
    assert_eq!(case.fmt(), "case[#5] @0 {\n\t#1\n\t#2\n}");
}

#[test]
fn holed_env_lines() {
    let env = HoledEnv {
        consts: vec![
            (
                HoledConst::Def { rhs: ht(HoledTerm::Const(1)), type_: ht(HoledTerm::Universe) },
                loc(),
            ),
            (HoledConst::Ctor { datatype: 0, type_: ht(HoledTerm::Universe) }, loc()),
        ],
        typings: vec![(ht(HoledTerm::DBI(0)), ht(HoledTerm::Universe))],
        nof_named_hole: 0,
    };
    let expected = "#0 : Type := #1\n\n#0.#1 : Type\n@0 : Type\n[nof_named_hole: 0]\n";
    assert_eq!(env.fmt(), expected);
}

#[test]
fn holed_datatype_line() {
    let env = HoledEnv {
        consts: vec![
            (
                HoledConst::DataType {
                    param_types: vec![(ht(HoledTerm::Universe), 0), (ht(HoledTerm::DBI(0)), 1)],
                    type_: ht(HoledTerm::Universe),
                },
                loc(),
            ),
        ],
        typings: Vec::new(),
        nof_named_hole: 1,
    };
    let expected = "data #0 'Type '{@0} : Type { ... }\n\n[nof_named_hole: 1]\n";
    assert_eq!(env.fmt(), expected);
}

#[test]
fn infer_leaves_and_metavariables() {
    assert_eq!(Expr::Const(3).fmt(), "#3");
    assert_eq!(Expr::DBI(1).fmt(), "@1");
    assert_eq!(Expr::Universe.fmt(), "Type");
    assert_eq!(Expr::Infer { id: 4 }.fmt(), "?4");
    assert_eq!(Expr::Value(Value::Int(-2)).fmt(), "-2");
}

#[test]
fn infer_typed_term_shows_term_and_type() {
    let t = typed(Expr::Const(1), Expr::Universe);
    assert_eq!(t.fmt(), "(#1:Type)");
}

#[test]
fn infer_application_wraps_implicit_arguments() {
    let app = Expr::App {
        s: Box::new(typed(Expr::Const(1), Expr::Universe)),
        t: Box::new(typed(Expr::DBI(0), Expr::Universe)),
        implicity: 1,
    };
    assert_eq!(app.fmt(), "(#1:Type){(@0:Type)}");
}

#[test]
fn explicit_substitution_rendering() {
    assert_eq!(Subst::Shift(1).fmt(), "\u{2191}1");
    let s = Subst::Dot(et(Expr::Const(2)), Box::new(Subst::Shift(3)));
    assert_eq!(s.fmt(), "#2.\u{2191}3");
    let wrapped = Expr::Subst(Box::new(Subst::Shift(1)), et(Expr::Const(2)));
    assert_eq!(wrapped.fmt(), "[\u{2191}1]#2");
}

#[test]
fn equality_chain_rendering() {
    let chain = Expr::Equal(vec![et(Expr::Const(1)), et(Expr::Const(2)), et(Expr::DBI(0))]);
    assert_eq!(chain.fmt(), "< #1 = #2 = @0 >");
}

#[test]
fn constraint_rendering() {
    assert_eq!(Equal::ToId(1, 2).fmt(), "?1 = ?2");
    assert_eq!(Equal::Instantiate(3, et(Expr::Const(1))).fmt(), "?3 := #1");
}

#[test]
fn infer_env_lines() {
    let env = vec![
        InferConstDecl { c: InferConst::Def(et(Expr::Const(1))), type_: et(Expr::Universe) },
        InferConstDecl { c: InferConst::Ctor { datatype: 0 }, type_: et(Expr::Universe) },
    ];
    let mut out = String::new();
    fmt_infer_env(&env, &mut out, 0);
    assert_eq!(out, "#0 := #1 : Type\n\n#0.#1 : Type\n");
    let dummy = InferEnvDummy(env);
    assert_eq!(dummy.fmt(), "#0 := #1 : Type\n\n#0.#1 : Type\n");
}

#[test]
fn infer_ctx_sections() {
    let ctx = InferCtx { consts: Vec::new(), local: Vec::new(), typings: Vec::new() };
    assert_eq!(ctx.fmt(), "{\n}\n[\n]\n<\n>\n");
    let ctx = InferCtx {
        consts: Vec::new(),
        local: vec![typed(Expr::DBI(0), Expr::Universe)],
        typings: vec![(typed(Expr::Const(1), Expr::Universe), typed(Expr::Universe, Expr::Universe))],
    };
    assert_eq!(ctx.fmt(), "{\n}\n[\n\t(@0:Type)\n]\n<\n\t(#1:Type) : (Type:Type)\n>\n");
}

#[test]
fn name_rendering() {
    let n = Name { qualifier: vec!["a".to_string(), "b".to_string()], identifier: "c".to_string() };
    assert_eq!(n.fmt(), "a.b.c");
    assert_eq!(Name::simple("x".to_string()).fmt(), "x");
}

#[test]
fn nested_let_inside_case_branch() {
    let inner_env = HoledEnv { consts: Vec::new(), typings: Vec::new(), nof_named_hole: 0 };
    let branch = HoledTerm::Let { env: Box::new(inner_env), t: ht(HoledTerm::Const(1)) };
    let case = HoledTerm::Case { t: ht(HoledTerm::DBI(0)), cases: vec![ht(branch)], datatype: None };
    // the branch itself renders at indentation 0; only its own body nests
    assert_eq!(case.fmt(), "case @0 {\n\tlet {\n\t[nof_named_hole: 0]\n} in (#1)\n}");
}

#[test]
fn env_rendering_honors_the_indent_level() {
    let env = HoledEnv { consts: Vec::new(), typings: Vec::new(), nof_named_hole: 3 };
    let mut out = String::new();
    env.fmt_with_indent(&mut out, 2);
    assert_eq!(out, "\t\t[nof_named_hole: 3]\n");
}
