//! Plain-text rendering of terms, environments, constraints and names.
//!
//! Every rendering function appends to a caller-supplied `String` (or
//! returns a fresh one) and is specified exactly by a spec function that
//! states the characters produced.

use vstd::prelude::*;
use vstd::string::*;

use crate::ident::Loc;
use crate::modules::Name;
use crate::term::{ETerm, Equal, Expr, HTerm, HoledConst, HoledEnv, HoledTerm,
    InferConst, InferConstDecl, InferCtx, InferEnv, InferTypedTerm, Subst, Value};

verus! {

// ---------------------------------------------------------------------------
// Indentation, argument braces, decimal numbers.
// ---------------------------------------------------------------------------

/// `lvl` tab characters.
pub open spec fn spec_indent(lvl: nat) -> Seq<char> {
    Seq::new(lvl, |i: int| '\t')
}

/// `n` opening braces.
pub open spec fn braces_open(n: nat) -> Seq<char> {
    Seq::new(n, |i: int| '{')
}

/// `n` closing braces.
pub open spec fn braces_close(n: nat) -> Seq<char> {
    Seq::new(n, |i: int| '}')
}

/// An argument wrapped in one pair of braces per degree of implicitness.
pub open spec fn spec_arg(arg: Seq<char>, imp: nat) -> Seq<char> {
    braces_open(imp) + arg + braces_close(imp)
}

/// The next indentation level; saturates at the machine limit.
pub open spec fn next_level(lvl: usize) -> usize {
    if lvl == usize::MAX {
        lvl
    } else {
        (lvl + 1) as usize
    }
}

fn next_level_exec(lvl: usize) -> (r: usize)
    ensures
        r == next_level(lvl),
{
    if lvl == usize::MAX {
        lvl
    } else {
        lvl + 1
    }
}

/// Appends `lvl` tabs.
pub fn write_indent(out: &mut String, lvl: usize)
    ensures
        final(out)@ == old(out)@ + spec_indent(lvl as nat),
{
    let mut i: usize = 0;
    proof {
        assert(out@ =~= old(out)@ + spec_indent(0));
    }
    while i < lvl
        invariant
            0 <= i <= lvl,
            out@ == old(out)@ + spec_indent(i as nat),
        decreases lvl - i,
    {
        out.append("\t");
        proof {
            reveal_strlit("\t");
            assert(out@ =~= old(out)@ + spec_indent((i + 1) as nat));
        }
        i += 1;
    }
}

/// Appends `arg`, wrapped in one pair of braces per degree of
/// implicitness: explicit arguments (implicitness 0) appear bare.
pub fn write_arg(out: &mut String, arg: &str, implicity: u8)
    ensures
        final(out)@ == old(out)@ + spec_arg(arg@, implicity as nat),
{
    let mut i: u8 = 0;
    proof {
        assert(out@ =~= old(out)@ + braces_open(0));
    }
    while i < implicity
        invariant
            0 <= i <= implicity,
            out@ == old(out)@ + braces_open(i as nat),
        decreases implicity - i,
    {
        out.append("{");
        proof {
            reveal_strlit("{");
            assert(out@ =~= old(out)@ + braces_open((i + 1) as nat));
        }
        i += 1;
    }
    out.append(arg);
    let ghost mid = out@;
    let mut j: u8 = 0;
    proof {
        assert(out@ =~= mid + braces_close(0));
    }
    while j < implicity
        invariant
            0 <= j <= implicity,
            out@ == mid + braces_close(j as nat),
        decreases implicity - j,
    {
        out.append("}");
        proof {
            reveal_strlit("}");
            assert(out@ =~= mid + braces_close((j + 1) as nat));
        }
        j += 1;
    }
    proof {
        assert(out@ =~= old(out)@ + spec_arg(arg@, implicity as nat));
    }
}

/// The character of one decimal digit.
pub open spec fn digit_char(d: nat) -> char {
    if d == 0 {
        '0'
    } else if d == 1 {
        '1'
    } else if d == 2 {
        '2'
    } else if d == 3 {
        '3'
    } else if d == 4 {
        '4'
    } else if d == 5 {
        '5'
    } else if d == 6 {
        '6'
    } else if d == 7 {
        '7'
    } else if d == 8 {
        '8'
    } else {
        '9'
    }
}

/// The decimal rendering of `n`, most significant digit first.
pub open spec fn spec_dec(n: nat) -> Seq<char>
    decreases n,
{
    if n < 10 {
        seq![digit_char(n)]
    } else {
        spec_dec(n / 10).push(digit_char(n % 10))
    }
}

fn digit_str(d: u64) -> (r: &'static str)
    requires
        d < 10,
    ensures
        r@ == seq![digit_char(d as nat)],
{
    proof {
        reveal_strlit("0");
        reveal_strlit("1");
        reveal_strlit("2");
        reveal_strlit("3");
        reveal_strlit("4");
        reveal_strlit("5");
        reveal_strlit("6");
        reveal_strlit("7");
        reveal_strlit("8");
        reveal_strlit("9");
    }
    let r = match d {
        0 => "0",
        1 => "1",
        2 => "2",
        3 => "3",
        4 => "4",
        5 => "5",
        6 => "6",
        7 => "7",
        8 => "8",
        _ => "9",
    };
    proof {
        assert(r@ =~= seq![digit_char(d as nat)]);
    }
    r
}

/// Appends the decimal rendering of `n`.
pub fn push_dec(out: &mut String, n: u64)
    ensures
        final(out)@ == old(out)@ + spec_dec(n as nat),
    decreases n,
{
    if n < 10 {
        out.append(digit_str(n));
        proof {
            assert(out@ =~= old(out)@ + spec_dec(n as nat));
        }
    } else {
        push_dec(out, n / 10);
        out.append(digit_str(n % 10));
        proof {
            assert(out@ =~= old(out)@ + spec_dec(n as nat));
        }
    }
}

/// Appends the decimal rendering of a `usize`.
pub fn push_dec_usize(out: &mut String, n: usize)
    ensures
        final(out)@ == old(out)@ + spec_dec(n as nat),
{
    push_dec(out, n as u64);
}

// ---------------------------------------------------------------------------
// Literal values.
// ---------------------------------------------------------------------------

/// The rendering of a literal: naturals bare, integers always signed,
/// strings quoted.
pub open spec fn spec_value(v: Value) -> Seq<char> {
    match v {
        Value::Nat(n) => spec_dec(n as nat),
        Value::Int(i) => if i >= 0 {
            seq!['+'] + spec_dec(i as nat)
        } else {
            seq!['-'] + spec_dec((-(i as int)) as nat)
        },
        Value::Str(s) => seq!['"'] + s@ + seq!['"'],
    }
}

impl Value {
    /// Renders the literal.
    pub fn fmt(&self) -> (r: String)
        ensures
            r@ == spec_value(*self),
    {
        let mut out = String::new();
        match self {
            Value::Nat(n) => {
                push_dec(&mut out, *n);
            },
            Value::Int(i) => {
                if *i >= 0 {
                    out.append("+");
                    proof {
                        reveal_strlit("+");
                    }
                    push_dec(&mut out, *i as u64);
                } else {
                    out.append("-");
                    proof {
                        reveal_strlit("-");
                    }
                    let mag: u64 = (-(*i as i128)) as u64;
                    push_dec(&mut out, mag);
                }
            },
            Value::Str(s) => {
                out.append("\"");
                out.append(s.as_str());
                out.append("\"");
                proof {
                    reveal_strlit("\"");
                }
            },
        }
        proof {
            assert(out@ =~= spec_value(*self));
        }
        out
    }
}

// ---------------------------------------------------------------------------
// The holed (pre-elaboration) form.
// ---------------------------------------------------------------------------

/// The rendering of a located holed term, at indentation 0.
pub open spec fn spec_hterm(t: HTerm) -> Seq<char>
    decreases t, 0nat,
{
    spec_holed(*t.term, 0)
}

/// The tag a case analysis carries when its datatype is known.
pub open spec fn spec_case_tag(d: Option<usize>) -> Seq<char> {
    match d {
        Some(i) => "[#"@ + spec_dec(i as nat) + "]"@,
        None => Seq::empty(),
    }
}

/// The rendering of a holed term at indentation `lvl`: constants as `#id`,
/// bound variables as `@index`, nested sub-terms at indentation 0, and the
/// bodies of `let` and `case` one level deeper.
pub open spec fn spec_holed(t: HoledTerm, lvl: usize) -> Seq<char>
    decreases t, 1nat,
{
    spec_indent(lvl as nat) + match t {
        HoledTerm::Const(c) => seq!['#'] + spec_dec(c as nat),
        HoledTerm::DBI(i) => seq!['@'] + spec_dec(i as nat),
        HoledTerm::Universe => "Type"@,
        HoledTerm::App { s, t: arg, implicity } => spec_hterm(s) + seq![' '] + spec_arg(
            spec_hterm(arg),
            implicity as nat,
        ),
        HoledTerm::Lam(abs, imp) => "(\\"@ + spec_arg(spec_hterm(abs.dom), imp as nat) + " -> "@
            + spec_hterm(abs.body) + seq![')'],
        HoledTerm::Pi(abs, imp) => seq!['('] + (if imp == 0 {
            seq!['(']
        } else {
            Seq::empty()
        }) + spec_arg(spec_hterm(abs.dom), imp as nat) + (if imp == 0 {
            seq![')']
        } else {
            Seq::empty()
        }) + " -> "@ + spec_hterm(abs.body) + seq![')'],
        HoledTerm::Let { env, t: body } => "let {\n"@ + spec_henv(*env, next_level(lvl))
            + spec_indent(lvl as nat) + "} in ("@ + spec_hterm(body) + seq![')'],
        HoledTerm::Case { t: scrut, cases, datatype } => "case"@ + spec_case_tag(datatype)
            + seq![' '] + spec_hterm(scrut) + " {\n"@ + spec_cases(
            cases@,
            cases@.len() as nat,
            next_level(lvl),
        ) + spec_indent(lvl as nat) + seq!['}'],
        HoledTerm::Hole(opt) => seq!['?'] + (match opt {
            Some(i) => spec_dec(i as nat),
            None => Seq::empty(),
        }),
        HoledTerm::Value(v) => spec_value(v),
    }
}

/// The first `n` branch lines of a case analysis, one term per line.
pub open spec fn spec_cases(cs: Seq<HTerm>, n: nat, lvl: usize) -> Seq<char>
    decreases cs, n,
{
    if n == 0 || n > cs.len() {
        Seq::empty()
    } else {
        spec_cases(cs, (n - 1) as nat, lvl) + spec_indent(lvl as nat) + spec_hterm(cs[n - 1])
            + "\n"@
    }
}

/// One declaration line of a holed environment, at declaration id `id`,
/// followed by a blank line (constructors carry no newline of their own, so
/// they get only the one).
pub open spec fn spec_holed_const(c: HoledConst, id: nat, lvl: usize) -> Seq<char>
    decreases c, 0nat,
{
    spec_indent(lvl as nat) + (match c {
        HoledConst::Def { rhs, type_ } => seq!['#'] + spec_dec(id) + " : "@ + spec_hterm(type_)
            + " := "@ + spec_hterm(rhs) + "\n"@,
        HoledConst::DataType { param_types, type_ } => "data #"@ + spec_dec(id) + spec_holed_params(
            param_types@,
            param_types@.len() as nat,
        ) + " : "@ + spec_hterm(type_) + " { ... }\n"@,
        HoledConst::Ctor { datatype, type_ } => seq!['#'] + spec_dec(datatype as nat) + ".#"@
            + spec_dec(id) + " : "@ + spec_hterm(type_),
    }) + "\n"@
}

/// The first `n` parameters of a holed datatype declaration.
pub open spec fn spec_holed_params(ps: Seq<(HTerm, u8)>, n: nat) -> Seq<char>
    decreases ps, n,
{
    if n == 0 || n > ps.len() {
        Seq::empty()
    } else {
        spec_holed_params(ps, (n - 1) as nat) + " '"@ + spec_arg(
            spec_hterm(ps[n - 1].0),
            ps[n - 1].1 as nat,
        )
    }
}

/// The first `n` declaration lines of a holed environment.
pub open spec fn spec_holed_consts(cs: Seq<(HoledConst, Loc)>, n: nat, lvl: usize) -> Seq<
    char,
>
    decreases cs, n,
{
    if n == 0 || n > cs.len() {
        Seq::empty()
    } else {
        spec_holed_consts(cs, (n - 1) as nat, lvl) + spec_holed_const(cs[n - 1].0, (n - 1) as nat, lvl)
    }
}

/// The first `n` typing-annotation lines of a holed environment.
pub open spec fn spec_holed_typings(ts: Seq<(HTerm, HTerm)>, n: nat, lvl: usize) -> Seq<char>
    decreases ts, n,
{
    if n == 0 || n > ts.len() {
        Seq::empty()
    } else {
        spec_holed_typings(ts, (n - 1) as nat, lvl) + spec_indent(lvl as nat) + spec_hterm(
            ts[n - 1].0,
        ) + " : "@ + spec_hterm(ts[n - 1].1) + "\n"@
    }
}

/// The rendering of a holed environment: every declaration under its id,
/// every typing annotation, and the named-hole counter.
pub open spec fn spec_henv(env: HoledEnv, lvl: usize) -> Seq<char>
    decreases env, 2nat,
{
    spec_holed_consts(env.consts@, env.consts@.len() as nat, lvl) + spec_holed_typings(
        env.typings@,
        env.typings@.len() as nat,
        lvl,
    ) + spec_indent(lvl as nat) + "[nof_named_hole: "@ + spec_dec(env.nof_named_hole as nat)
        + "]\n"@
}

impl HoledTerm {
    /// Appends the rendering of this term at indentation `lvl`.
    #[verifier::rlimit(100)]
    fn fmt_at(&self, out: &mut String, lvl: usize)
        ensures
            final(out)@ == old(out)@ + spec_holed(*self, lvl),
        decreases *self, 1nat,
    {
        write_indent(out, lvl);
        match self {
            HoledTerm::Const(c) => {
                out.append("#");
                proof {
                    reveal_strlit("#");
                }
                push_dec_usize(out, *c);
            },
            HoledTerm::DBI(i) => {
                out.append("@");
                proof {
                    reveal_strlit("@");
                }
                push_dec_usize(out, *i);
            },
            HoledTerm::Universe => {
                out.append("Type");
            },
            HoledTerm::App { s, t, implicity } => {
                s.term.fmt_at(out, 0);
                out.append(" ");
                proof {
                    reveal_strlit(" ");
                }
                let mut arg = String::new();
                t.term.fmt_at(&mut arg, 0);
                write_arg(out, arg.as_str(), *implicity);
                proof {
                    assert(spec_hterm(*s) == spec_holed(*s.term, 0));
                    assert(spec_hterm(*t) == spec_holed(*t.term, 0));
                }
            },
            HoledTerm::Lam(abs, imp) => {
                out.append("(\\");
                let mut arg = String::new();
                abs.dom.term.fmt_at(&mut arg, 0);
                write_arg(out, arg.as_str(), *imp);
                out.append(" -> ");
                abs.body.term.fmt_at(out, 0);
                out.append(")");
                proof {
                    reveal_strlit(")");
                    assert(spec_hterm(abs.dom) == spec_holed(*abs.dom.term, 0));
                    assert(spec_hterm(abs.body) == spec_holed(*abs.body.term, 0));
                }
            },
            HoledTerm::Pi(abs, imp) => {
                out.append("(");
                if *imp == 0 {
                    out.append("(");
                }
                let mut arg = String::new();
                abs.dom.term.fmt_at(&mut arg, 0);
                write_arg(out, arg.as_str(), *imp);
                if *imp == 0 {
                    out.append(")");
                }
                out.append(" -> ");
                abs.body.term.fmt_at(out, 0);
                out.append(")");
                proof {
                    reveal_strlit("(");
                    reveal_strlit(")");
                    assert(spec_hterm(abs.dom) == spec_holed(*abs.dom.term, 0));
                    assert(spec_hterm(abs.body) == spec_holed(*abs.body.term, 0));
                }
            },
            HoledTerm::Let { env, t } => {
                out.append("let {\n");
                env.fmt_with_indent(out, next_level_exec(lvl));
                write_indent(out, lvl);
                out.append("} in (");
                t.term.fmt_at(out, 0);
                out.append(")");
                proof {
                    reveal_strlit(")");
                    assert(spec_hterm(*t) == spec_holed(*t.term, 0));
                }
            },
            HoledTerm::Case { t, cases, datatype } => {
                out.append("case");
                match datatype {
                    Some(d) => {
                        out.append("[#");
                        push_dec_usize(out, *d);
                        out.append("]");
                        proof {
                            reveal_strlit("]");
                        }
                    },
                    None => {},
                }
                out.append(" ");
                proof {
                    reveal_strlit(" ");
                }
                t.term.fmt_at(out, 0);
                proof {
                    assert(spec_hterm(*t) == spec_holed(*t.term, 0));
                }
                out.append(" {\n");
                let lvl2 = next_level_exec(lvl);
                let ghost base = out@;
                let ncases = cases.len();
                let mut i: usize = 0;
                proof {
                    assert(spec_cases(cases@, 0, lvl2) =~= Seq::<char>::empty());
                    assert(out@ =~= base + spec_cases(cases@, 0, lvl2));
                }
                while i < ncases
                    invariant
                        0 <= i <= ncases,
                        ncases == cases@.len(),
                        out@ == base + spec_cases(cases@, i as nat, lvl2),
                        lvl2 == next_level(lvl),
                        *self is Case,
                        cases == self->Case_cases,
                    decreases ncases - i,
                {
                    write_indent(out, lvl2);
                    proof {
                        assert(decreases_to!(*self => *cases));
                        assert(decreases_to!(*cases => cases@[i as int]));
                        assert(decreases_to!(cases@[i as int] => *cases@[i as int].term));
                    }
                    cases[i].term.fmt_at(out, 0);
                    out.append("\n");
                    proof {
                        reveal_strlit("\n");
                        assert(spec_hterm(cases@[i as int]) == spec_holed(
                            *cases@[i as int].term,
                            0,
                        ));
                        assert(spec_cases(cases@, (i + 1) as nat, lvl2) == spec_cases(
                            cases@,
                            i as nat,
                            lvl2,
                        ) + spec_indent(lvl2 as nat) + spec_hterm(cases@[i as int]) + "\n"@);
                        assert(out@ =~= base + spec_cases(cases@, (i + 1) as nat, lvl2));
                    }
                    i += 1;
                }
                write_indent(out, lvl);
                out.append("}");
                proof {
                    reveal_strlit("}");
                }
            },
            HoledTerm::Hole(opt) => {
                out.append("?");
                proof {
                    reveal_strlit("?");
                }
                match opt {
                    Some(i) => {
                        push_dec_usize(out, *i);
                    },
                    None => {},
                }
            },
            HoledTerm::Value(v) => {
                let s = v.fmt();
                out.append(s.as_str());
            },
        }
        proof {
            assert(out@ =~= old(out)@ + spec_holed(*self, lvl));
        }
    }

    /// Renders the term at indentation 0.
    pub fn fmt(&self) -> (r: String)
        ensures
            r@ == spec_holed(*self, 0),
    {
        let mut out = String::new();
        self.fmt_at(&mut out, 0);
        out
    }
}

impl HoledEnv {
    /// Appends the rendering of this environment at indentation `lvl`.
    #[verifier::rlimit(100)]
    pub fn fmt_with_indent(&self, out: &mut String, lvl: usize)
        ensures
            final(out)@ == old(out)@ + spec_henv(*self, lvl),
        decreases *self, 2nat,
    {
        let nconsts = self.consts.len();
        let ghost base0 = out@;
        let mut id: usize = 0;
        proof {
            assert(spec_holed_consts(self.consts@, 0, lvl) =~= Seq::<char>::empty());
            assert(out@ =~= base0 + spec_holed_consts(self.consts@, 0, lvl));
        }
        while id < nconsts
            invariant
                0 <= id <= nconsts,
                nconsts == self.consts@.len(),
                out@ == base0 + spec_holed_consts(self.consts@, id as nat, lvl),
            decreases nconsts - id,
        {
            write_indent(out, lvl);
            match &self.consts[id].0 {
                HoledConst::Def { rhs, type_ } => {
                    out.append("#");
                    proof {
                        reveal_strlit("#");
                    }
                    push_dec_usize(out, id);
                    out.append(" : ");
                    type_.term.fmt_at(out, 0);
                    out.append(" := ");
                    rhs.term.fmt_at(out, 0);
                    out.append("\n");
                    proof {
                        assert(spec_hterm(*type_) == spec_holed(*type_.term, 0));
                        assert(spec_hterm(*rhs) == spec_holed(*rhs.term, 0));
                    }
                },
                HoledConst::DataType { param_types, type_ } => {
                    out.append("data #");
                    push_dec_usize(out, id);
                    let nparams = param_types.len();
                    let ghost basep = out@;
                    let mut p: usize = 0;
                    proof {
                        assert(spec_holed_params(param_types@, 0) =~= Seq::<char>::empty());
                        assert(out@ =~= basep + spec_holed_params(param_types@, 0));
                    }
                    while p < nparams
                        invariant
                            0 <= p <= nparams,
                            nparams == param_types@.len(),
                            out@ == basep + spec_holed_params(param_types@, p as nat),
                            id < self.consts@.len(),
                            self.consts@[id as int].0 is DataType,
                            param_types == self.consts@[id as int].0->DataType_param_types,
                        decreases nparams - p,
                    {
                        out.append(" '");
                        let mut arg = String::new();
                        proof {
                            assert(decreases_to!(*self => self.consts));
                            assert(decreases_to!(self.consts => self.consts@[id as int]));
                            assert(decreases_to!(self.consts@[id as int] => self.consts@[id as int].0));
                            assert(decreases_to!(self.consts@[id as int].0 => *param_types));
                            assert(decreases_to!(*param_types => param_types@[p as int]));
                            assert(decreases_to!(param_types@[p as int] => param_types@[p as int].0));
                            assert(decreases_to!(param_types@[p as int].0 => *param_types@[p as int].0.term));
                        }
                        param_types[p].0.term.fmt_at(&mut arg, 0);
                        write_arg(out, arg.as_str(), param_types[p].1);
                        proof {
                            assert(spec_hterm(param_types@[p as int].0) == spec_holed(
                                *param_types@[p as int].0.term,
                                0,
                            ));
                            assert(spec_holed_params(param_types@, (p + 1) as nat)
                                == spec_holed_params(param_types@, p as nat) + " '"@ + spec_arg(
                                spec_hterm(param_types@[p as int].0),
                                param_types@[p as int].1 as nat,
                            ));
                            assert(out@ =~= basep + spec_holed_params(
                                param_types@,
                                (p + 1) as nat,
                            ));
                        }
                        p += 1;
                    }
                    out.append(" : ");
                    type_.term.fmt_at(out, 0);
                    out.append(" { ... }\n");
                    proof {
                        assert(spec_hterm(*type_) == spec_holed(*type_.term, 0));
                    }
                },
                HoledConst::Ctor { datatype, type_ } => {
                    out.append("#");
                    proof {
                        reveal_strlit("#");
                    }
                    push_dec_usize(out, *datatype);
                    out.append(".#");
                    push_dec_usize(out, id);
                    out.append(" : ");
                    type_.term.fmt_at(out, 0);
                    proof {
                        assert(spec_hterm(*type_) == spec_holed(*type_.term, 0));
                    }
                },
            }
            out.append("\n");
            proof {
                reveal_strlit("\n");
                assert(spec_holed_consts(self.consts@, (id + 1) as nat, lvl) == spec_holed_consts(
                    self.consts@,
                    id as nat,
                    lvl,
                ) + spec_holed_const(self.consts@[id as int].0, id as nat, lvl));
                assert(out@ =~= base0 + spec_holed_consts(self.consts@, (id + 1) as nat, lvl));
            }
            id += 1;
        }
        let ntypings = self.typings.len();
        let ghost base1 = out@;
        let mut ti: usize = 0;
        proof {
            assert(spec_holed_typings(self.typings@, 0, lvl) =~= Seq::<char>::empty());
            assert(out@ =~= base1 + spec_holed_typings(self.typings@, 0, lvl));
        }
        while ti < ntypings
            invariant
                0 <= ti <= ntypings,
                ntypings == self.typings@.len(),
                out@ == base1 + spec_holed_typings(self.typings@, ti as nat, lvl),
            decreases ntypings - ti,
        {
            write_indent(out, lvl);
            self.typings[ti].0.term.fmt_at(out, 0);
            out.append(" : ");
            self.typings[ti].1.term.fmt_at(out, 0);
            out.append("\n");
            proof {
                reveal_strlit("\n");
                assert(spec_hterm(self.typings@[ti as int].0) == spec_holed(
                    *self.typings@[ti as int].0.term,
                    0,
                ));
                assert(spec_hterm(self.typings@[ti as int].1) == spec_holed(
                    *self.typings@[ti as int].1.term,
                    0,
                ));
                assert(out@ =~= base1 + spec_holed_typings(self.typings@, (ti + 1) as nat, lvl));
            }
            ti += 1;
        }
        write_indent(out, lvl);
        out.append("[nof_named_hole: ");
        push_dec_usize(out, self.nof_named_hole);
        out.append("]\n");
        proof {
            assert(out@ =~= old(out)@ + spec_henv(*self, lvl));
        }
    }

    /// Renders the environment at indentation 0.
    pub fn fmt(&self) -> (r: String)
        ensures
            r@ == spec_henv(*self, 0),
    {
        let mut out = String::new();
        self.fmt_with_indent(&mut out, 0);
        out
    }
}

// ---------------------------------------------------------------------------
// The infer (post-elaboration) form: well-formedness.
// ---------------------------------------------------------------------------

/// Every typed term in the tree carries at least a term and its type.
pub open spec fn wf_eterm(t: ETerm) -> bool
    decreases t, 0nat,
{
    wf_expr(*t.term)
}

/// A typed term: the tower holds the term at 0 and its type at 1.
pub open spec fn wf_typed(t: InferTypedTerm) -> bool
    decreases t, 1nat,
{
    &&& t.tower@.len() >= 2
    &&& wf_eterm(t.tower@[0])
    &&& wf_eterm(t.tower@[1])
}

/// Well-formedness of an infer term: every embedded tower is complete.
pub open spec fn wf_expr(e: Expr) -> bool
    decreases e, 2nat,
{
    match e {
        Expr::Const(_) => true,
        Expr::DBI(_) => true,
        Expr::Universe => true,
        Expr::App { s, t, implicity: _ } => wf_typed(*s) && wf_typed(*t),
        Expr::Lam(abs, _) => wf_typed(abs.dom) && wf_typed(abs.body),
        Expr::Pi(abs, _) => wf_typed(abs.dom) && wf_typed(abs.body),
        Expr::Let { env, t } => wf_ienv(env@, env@.len() as nat) && wf_typed(*t),
        Expr::Case { t, cases, datatype: _ } => wf_typed(*t) && wf_icases(
            cases@,
            cases@.len() as nat,
        ),
        Expr::Value(_) => true,
        Expr::Infer { id: _ } => true,
        Expr::Subst(s, e2) => wf_subst(*s) && wf_eterm(e2),
        Expr::Equal(xs) => wf_chain(xs@, xs@.len() as nat),
    }
}

/// Well-formedness of the first `n` branches of a case analysis.
pub open spec fn wf_icases(cs: Seq<InferTypedTerm>, n: nat) -> bool
    decreases cs, n,
{
    if n == 0 || n > cs.len() {
        true
    } else {
        wf_icases(cs, (n - 1) as nat) && wf_typed(cs[n - 1])
    }
}

/// Well-formedness of the first `n` terms of an equality chain.
pub open spec fn wf_chain(xs: Seq<ETerm>, n: nat) -> bool
    decreases xs, n,
{
    if n == 0 || n > xs.len() {
        true
    } else {
        wf_chain(xs, (n - 1) as nat) && wf_eterm(xs[n - 1])
    }
}

/// Well-formedness of one declaration.
pub open spec fn wf_idecl(d: InferConstDecl) -> bool
    decreases d, 1nat,
{
    &&& wf_eterm(d.type_)
    &&& match d.c {
        InferConst::Def(t) => wf_eterm(t),
        InferConst::DataType { param_types } => wf_iparams(param_types@, param_types@.len() as nat),
        InferConst::Ctor { datatype: _ } => true,
    }
}

/// Well-formedness of the first `n` datatype parameters.
pub open spec fn wf_iparams(ps: Seq<(ETerm, u8)>, n: nat) -> bool
    decreases ps, n,
{
    if n == 0 || n > ps.len() {
        true
    } else {
        wf_iparams(ps, (n - 1) as nat) && wf_eterm(ps[n - 1].0)
    }
}

/// Well-formedness of the first `n` declarations of an environment.
pub open spec fn wf_ienv(env: Seq<InferConstDecl>, n: nat) -> bool
    decreases env, n,
{
    if n == 0 || n > env.len() {
        true
    } else {
        wf_ienv(env, (n - 1) as nat) && wf_idecl(env[n - 1])
    }
}

/// Well-formedness of a substitution: every bound term is well-formed.
pub open spec fn wf_subst(s: Subst) -> bool
    decreases s, 1nat,
{
    match s {
        Subst::Shift(_) => true,
        Subst::Dot(e, rest) => wf_eterm(e) && wf_subst(*rest),
    }
}

// ---------------------------------------------------------------------------
// The infer form: rendering.
// ---------------------------------------------------------------------------

/// The rendering of a located infer term, at indentation 0.
pub open spec fn spec_eterm(t: ETerm) -> Seq<char>
    decreases t, 0nat,
{
    spec_expr(*t.term, 0)
}

/// The rendering of a typed term: `(term:type)`.
pub open spec fn spec_typed(t: InferTypedTerm) -> Seq<char>
    decreases t, 1nat,
    when t.tower@.len() >= 2
    via spec_typed_decreases
{
    seq!['('] + spec_eterm(t.tower@[0]) + seq![':'] + spec_eterm(t.tower@[1]) + seq![')']
}

#[via_fn]
proof fn spec_typed_decreases(t: InferTypedTerm) {
    assert(decreases_to!(t => t.tower));
    assert(decreases_to!(t.tower => t.tower@[0]));
    assert(decreases_to!(t.tower => t.tower@[1]));
}

/// The rendering of an infer term at indentation `lvl`: like the holed
/// form, with metavariables as `?id`, explicit substitutions in brackets,
/// and equality chains between angle brackets.
pub open spec fn spec_expr(e: Expr, lvl: usize) -> Seq<char>
    decreases e, 2nat,
{
    spec_indent(lvl as nat) + match e {
        Expr::Const(c) => seq!['#'] + spec_dec(c as nat),
        Expr::DBI(i) => seq!['@'] + spec_dec(i as nat),
        Expr::Universe => "Type"@,
        Expr::App { s, t, implicity } => spec_typed(*s) + spec_arg(
            spec_typed(*t),
            implicity as nat,
        ),
        Expr::Lam(abs, imp) => "(\\"@ + spec_arg(spec_typed(abs.dom), imp as nat) + " -> "@
            + spec_typed(abs.body) + seq![')'],
        Expr::Pi(abs, imp) => seq!['('] + (if imp == 0 {
            seq!['(']
        } else {
            Seq::empty()
        }) + spec_arg(spec_typed(abs.dom), imp as nat) + (if imp == 0 {
            seq![')']
        } else {
            Seq::empty()
        }) + " -> "@ + spec_typed(abs.body) + seq![')'],
        Expr::Let { env, t } => "(let {\n"@ + spec_ienv(env@, env@.len() as nat, next_level(lvl))
            + spec_indent(lvl as nat) + "} in "@ + spec_typed(*t) + seq![')'],
        Expr::Case { t, cases, datatype } => "(case"@ + spec_case_tag(datatype) + seq![' ']
            + spec_typed(*t) + " {\n"@ + spec_icases(cases@, cases@.len() as nat, next_level(lvl))
            + spec_indent(lvl as nat) + seq!['}'],
        Expr::Value(v) => spec_value(v),
        Expr::Infer { id } => seq!['?'] + spec_dec(id as nat),
        Expr::Subst(s, e2) => seq!['['] + spec_subst(*s) + seq![']'] + spec_eterm(e2),
        Expr::Equal(xs) => "< "@ + spec_chain(xs@, xs@.len() as nat) + " >"@,
    }
}

/// The first `n` branch lines of an infer case analysis.
pub open spec fn spec_icases(cs: Seq<InferTypedTerm>, n: nat, lvl: usize) -> Seq<char>
    decreases cs, n,
{
    if n == 0 || n > cs.len() {
        Seq::empty()
    } else {
        spec_icases(cs, (n - 1) as nat, lvl) + spec_indent(lvl as nat) + spec_typed(cs[n - 1])
            + "\n"@
    }
}

/// The first `n` links of an equality chain, separated by ` = `.
pub open spec fn spec_chain(xs: Seq<ETerm>, n: nat) -> Seq<char>
    decreases xs, n,
{
    if n == 0 || n > xs.len() {
        Seq::empty()
    } else {
        spec_chain(xs, (n - 1) as nat) + spec_eterm(xs[n - 1]) + (if n < xs.len() {
            " = "@
        } else {
            Seq::empty()
        })
    }
}

/// The rendering of an explicit substitution: a shift as `\u{2191}n`, a
/// binding as the bound term, a dot, and the rest.
pub open spec fn spec_subst(s: Subst) -> Seq<char>
    decreases s, 1nat,
{
    match s {
        Subst::Shift(n) => "\u{2191}"@ + spec_dec(n as nat),
        Subst::Dot(e, rest) => spec_eterm(e) + seq!['.'] + spec_subst(*rest),
    }
}

/// One declaration line of an infer environment, at declaration id `id`,
/// followed by a blank line (constructors carry no newline of their own).
pub open spec fn spec_idecl(d: InferConstDecl, id: nat, lvl: usize) -> Seq<char>
    decreases d, 1nat,
{
    spec_indent(lvl as nat) + (match d.c {
        InferConst::Def(t) => seq!['#'] + spec_dec(id) + " := "@ + spec_eterm(t) + " : "@
            + spec_eterm(d.type_) + "\n"@,
        InferConst::DataType { param_types } => "datatype #"@ + spec_dec(id) + spec_iparams(
            param_types@,
            param_types@.len() as nat,
        ) + " : "@ + spec_eterm(d.type_) + " { ... }\n"@,
        InferConst::Ctor { datatype } => seq!['#'] + spec_dec(datatype as nat) + ".#"@ + spec_dec(
            id,
        ) + " : "@ + spec_eterm(d.type_),
    }) + "\n"@
}

/// The first `n` parameters of an infer datatype declaration.
pub open spec fn spec_iparams(ps: Seq<(ETerm, u8)>, n: nat) -> Seq<char>
    decreases ps, n,
{
    if n == 0 || n > ps.len() {
        Seq::empty()
    } else {
        spec_iparams(ps, (n - 1) as nat) + " '"@ + spec_arg(
            spec_eterm(ps[n - 1].0),
            ps[n - 1].1 as nat,
        )
    }
}

/// The first `n` declaration lines of an infer environment.
pub open spec fn spec_ienv(env: Seq<InferConstDecl>, n: nat, lvl: usize) -> Seq<char>
    decreases env, n,
{
    if n == 0 || n > env.len() {
        Seq::empty()
    } else {
        spec_ienv(env, (n - 1) as nat, lvl) + spec_idecl(env[n - 1], (n - 1) as nat, lvl)
    }
}

impl InferTypedTerm {
    /// Appends `(term:type)`.
    fn fmt_into(&self, out: &mut String)
        requires
            wf_typed(*self),
        ensures
            final(out)@ == old(out)@ + spec_typed(*self),
        decreases *self, 1nat,
    {
        out.append("(");
        proof {
            reveal_strlit("(");
            reveal_strlit(":");
            reveal_strlit(")");
            assert(decreases_to!(*self => self.tower));
            assert(decreases_to!(self.tower => self.tower@[0]));
            assert(decreases_to!(self.tower@[0] => *self.tower@[0].term));
            assert(decreases_to!(self.tower => self.tower@[1]));
            assert(decreases_to!(self.tower@[1] => *self.tower@[1].term));
        }
        self.tower[0].term.fmt_at(out, 0);
        out.append(":");
        self.tower[1].term.fmt_at(out, 0);
        out.append(")");
        proof {
            assert(spec_eterm(self.tower@[0]) == spec_expr(*self.tower@[0].term, 0));
            assert(spec_eterm(self.tower@[1]) == spec_expr(*self.tower@[1].term, 0));
            assert(out@ =~= old(out)@ + spec_typed(*self));
        }
    }

    /// Renders the typed term.
    pub fn fmt(&self) -> (r: String)
        requires
            wf_typed(*self),
        ensures
            r@ == spec_typed(*self),
    {
        let mut out = String::new();
        self.fmt_into(&mut out);
        out
    }
}

impl Subst {
    /// Appends the rendering of the substitution.
    fn fmt_into(&self, out: &mut String)
        requires
            wf_subst(*self),
        ensures
            final(out)@ == old(out)@ + spec_subst(*self),
        decreases *self, 1nat,
    {
        match self {
            Subst::Shift(n) => {
                out.append("\u{2191}");
                push_dec_usize(out, *n);
                proof {
                    assert(out@ =~= old(out)@ + spec_subst(*self));
                }
            },
            Subst::Dot(e, rest) => {
                proof {
                    assert(wf_eterm(*e));
                }
                e.term.fmt_at(out, 0);
                out.append(".");
                rest.fmt_into(out);
                proof {
                    reveal_strlit(".");
                    assert(spec_eterm(*e) == spec_expr(*e.term, 0));
                    assert(out@ =~= old(out)@ + spec_subst(*self));
                }
            },
        }
    }

    /// Renders the substitution.
    pub fn fmt(&self) -> (r: String)
        requires
            wf_subst(*self),
        ensures
            r@ == spec_subst(*self),
    {
        let mut out = String::new();
        self.fmt_into(&mut out);
        out
    }
}

impl Expr {
    /// Appends the rendering of this term at indentation `lvl`.
    #[verifier::rlimit(100)]
    fn fmt_at(&self, out: &mut String, lvl: usize)
        requires
            wf_expr(*self),
        ensures
            final(out)@ == old(out)@ + spec_expr(*self, lvl),
        decreases *self, 2nat,
    {
        write_indent(out, lvl);
        match self {
            Expr::Const(c) => {
                out.append("#");
                proof {
                    reveal_strlit("#");
                }
                push_dec_usize(out, *c);
            },
            Expr::DBI(i) => {
                out.append("@");
                proof {
                    reveal_strlit("@");
                }
                push_dec_usize(out, *i);
            },
            Expr::Universe => {
                out.append("Type");
            },
            Expr::App { s, t, implicity } => {
                s.fmt_into(out);
                let mut arg = String::new();
                t.fmt_into(&mut arg);
                write_arg(out, arg.as_str(), *implicity);
            },
            Expr::Lam(abs, imp) => {
                out.append("(\\");
                let mut arg = String::new();
                abs.dom.fmt_into(&mut arg);
                write_arg(out, arg.as_str(), *imp);
                out.append(" -> ");
                abs.body.fmt_into(out);
                out.append(")");
                proof {
                    reveal_strlit(")");
                }
            },
            Expr::Pi(abs, imp) => {
                out.append("(");
                if *imp == 0 {
                    out.append("(");
                }
                let mut arg = String::new();
                abs.dom.fmt_into(&mut arg);
                write_arg(out, arg.as_str(), *imp);
                if *imp == 0 {
                    out.append(")");
                }
                out.append(" -> ");
                abs.body.fmt_into(out);
                out.append(")");
                proof {
                    reveal_strlit("(");
                    reveal_strlit(")");
                }
            },
            Expr::Let { env, t } => {
                out.append("(let {\n");
                fmt_infer_env(env, out, next_level_exec(lvl));
                write_indent(out, lvl);
                out.append("} in ");
                t.fmt_into(out);
                out.append(")");
                proof {
                    reveal_strlit(")");
                }
            },
            Expr::Case { t, cases, datatype } => {
                out.append("(case");
                match datatype {
                    Some(d) => {
                        out.append("[#");
                        push_dec_usize(out, *d);
                        out.append("]");
                        proof {
                            reveal_strlit("]");
                        }
                    },
                    None => {},
                }
                out.append(" ");
                proof {
                    reveal_strlit(" ");
                }
                t.fmt_into(out);
                out.append(" {\n");
                let lvl2 = next_level_exec(lvl);
                let ghost base = out@;
                let ncases = cases.len();
                let mut i: usize = 0;
                proof {
                    assert(spec_icases(cases@, 0, lvl2) =~= Seq::<char>::empty());
                    assert(out@ =~= base + spec_icases(cases@, 0, lvl2));
                }
                while i < ncases
                    invariant
                        0 <= i <= ncases,
                        ncases == cases@.len(),
                        out@ == base + spec_icases(cases@, i as nat, lvl2),
                        lvl2 == next_level(lvl),
                        *self is Case,
                        cases == self->Case_cases,
                        wf_icases(cases@, cases@.len() as nat),
                    decreases ncases - i,
                {
                    write_indent(out, lvl2);
                    proof {
                        assert(decreases_to!(*self => *cases));
                        assert(decreases_to!(*cases => cases@[i as int]));
                        lemma_wf_icases_index(cases@, cases@.len() as nat, i as int);
                    }
                    cases[i].fmt_into(out);
                    out.append("\n");
                    proof {
                        reveal_strlit("\n");
                        assert(spec_icases(cases@, (i + 1) as nat, lvl2) == spec_icases(
                            cases@,
                            i as nat,
                            lvl2,
                        ) + spec_indent(lvl2 as nat) + spec_typed(cases@[i as int]) + "\n"@);
                        assert(out@ =~= base + spec_icases(cases@, (i + 1) as nat, lvl2));
                    }
                    i += 1;
                }
                write_indent(out, lvl);
                out.append("}");
                proof {
                    reveal_strlit("}");
                }
            },
            Expr::Value(v) => {
                let s = v.fmt();
                out.append(s.as_str());
            },
            Expr::Infer { id } => {
                out.append("?");
                proof {
                    reveal_strlit("?");
                }
                push_dec_usize(out, *id);
            },
            Expr::Subst(s, e2) => {
                out.append("[");
                s.fmt_into(out);
                out.append("]");
                e2.term.fmt_at(out, 0);
                proof {
                    reveal_strlit("[");
                    reveal_strlit("]");
                    assert(spec_eterm(*e2) == spec_expr(*e2.term, 0));
                }
            },
            Expr::Equal(xs) => {
                out.append("< ");
                let ghost base = out@;
                let nxs = xs.len();
                let mut i: usize = 0;
                proof {
                    assert(spec_chain(xs@, 0) =~= Seq::<char>::empty());
                    assert(out@ =~= base + spec_chain(xs@, 0));
                }
                while i < nxs
                    invariant
                        0 <= i <= nxs,
                        nxs == xs@.len(),
                        out@ == base + spec_chain(xs@, i as nat),
                        *self is Equal,
                        xs == self->Equal_0,
                        wf_chain(xs@, xs@.len() as nat),
                    decreases nxs - i,
                {
                    proof {
                        assert(decreases_to!(*self => *xs));
                        assert(decreases_to!(*xs => xs@[i as int]));
                        assert(decreases_to!(xs@[i as int] => *xs@[i as int].term));
                        lemma_wf_chain_index(xs@, xs@.len() as nat, i as int);
                    }
                    xs[i].term.fmt_at(out, 0);
                    if i != nxs - 1 {
                        out.append(" = ");
                    }
                    proof {
                        assert(spec_eterm(xs@[i as int]) == spec_expr(*xs@[i as int].term, 0));
                        assert(spec_chain(xs@, (i + 1) as nat) == spec_chain(xs@, i as nat)
                            + spec_eterm(xs@[i as int]) + (if i + 1 < xs@.len() {
                            " = "@
                        } else {
                            Seq::<char>::empty()
                        }));
                        assert(out@ =~= base + spec_chain(xs@, (i + 1) as nat));
                    }
                    i += 1;
                }
                out.append(" >");
            },
        }
        proof {
            assert(out@ =~= old(out)@ + spec_expr(*self, lvl));
        }
    }

    /// Renders the term at indentation 0.
    pub fn fmt(&self) -> (r: String)
        requires
            wf_expr(*self),
        ensures
            r@ == spec_expr(*self, 0),
    {
        let mut out = String::new();
        self.fmt_at(&mut out, 0);
        out
    }
}

/// A branch of a well-formed branch list is well-formed.
proof fn lemma_wf_icases_index(cs: Seq<InferTypedTerm>, n: nat, i: int)
    requires
        wf_icases(cs, n),
        0 <= i < n,
        n <= cs.len(),
    ensures
        wf_typed(cs[i]),
    decreases n,
{
    if i + 1 < n {
        lemma_wf_icases_index(cs, (n - 1) as nat, i);
    }
}

/// A link of a well-formed equality chain is well-formed.
proof fn lemma_wf_chain_index(xs: Seq<ETerm>, n: nat, i: int)
    requires
        wf_chain(xs, n),
        0 <= i < n,
        n <= xs.len(),
    ensures
        wf_eterm(xs[i]),
    decreases n,
{
    if i + 1 < n {
        lemma_wf_chain_index(xs, (n - 1) as nat, i);
    }
}

/// A declaration of a well-formed environment prefix is well-formed.
proof fn lemma_wf_ienv_index(env: Seq<InferConstDecl>, n: nat, i: int)
    requires
        wf_ienv(env, n),
        0 <= i < n,
        n <= env.len(),
    ensures
        wf_idecl(env[i]),
    decreases n,
{
    if i + 1 < n {
        lemma_wf_ienv_index(env, (n - 1) as nat, i);
    }
}

/// A parameter of a well-formed parameter list is well-formed.
proof fn lemma_wf_iparams_index(ps: Seq<(ETerm, u8)>, n: nat, i: int)
    requires
        wf_iparams(ps, n),
        0 <= i < n,
        n <= ps.len(),
    ensures
        wf_eterm(ps[i].0),
    decreases n,
{
    if i + 1 < n {
        lemma_wf_iparams_index(ps, (n - 1) as nat, i);
    }
}

/// Appends the rendering of an infer environment at indentation `lvl`:
/// every declaration under its id.
#[verifier::rlimit(100)]
pub fn fmt_infer_env(env: &InferEnv, out: &mut String, lvl: usize)
    requires
        wf_ienv(env@, env@.len() as nat),
    ensures
        final(out)@ == old(out)@ + spec_ienv(env@, env@.len() as nat, lvl),
    decreases *env, 3nat,
{
    let nenv = env.len();
    let ghost base0 = out@;
    let mut id: usize = 0;
    proof {
        assert(spec_ienv(env@, 0, lvl) =~= Seq::<char>::empty());
        assert(out@ =~= base0 + spec_ienv(env@, 0, lvl));
    }
    while id < nenv
        invariant
            0 <= id <= nenv,
            nenv == env@.len(),
            out@ == base0 + spec_ienv(env@, id as nat, lvl),
            wf_ienv(env@, env@.len() as nat),
        decreases nenv - id,
    {
        write_indent(out, lvl);
        proof {
            lemma_wf_ienv_index(env@, env@.len() as nat, id as int);
            assert(decreases_to!(*env => env@[id as int]));
        }
        match &env[id].c {
            InferConst::Def(t) => {
                out.append("#");
                proof {
                    reveal_strlit("#");
                    assert(decreases_to!(env@[id as int] => env@[id as int].c));
                    assert(decreases_to!(env@[id as int].c => *t));
                    assert(decreases_to!(env@[id as int] => env@[id as int].type_));
                }
                push_dec_usize(out, id);
                out.append(" := ");
                t.term.fmt_at(out, 0);
                out.append(" : ");
                env[id].type_.term.fmt_at(out, 0);
                out.append("\n");
                proof {
                    assert(spec_eterm(*t) == spec_expr(*t.term, 0));
                    assert(spec_eterm(env@[id as int].type_) == spec_expr(
                        *env@[id as int].type_.term,
                        0,
                    ));
                }
            },
            InferConst::DataType { param_types } => {
                out.append("datatype #");
                push_dec_usize(out, id);
                let nparams = param_types.len();
                let ghost basep = out@;
                let mut p: usize = 0;
                proof {
                    assert(spec_iparams(param_types@, 0) =~= Seq::<char>::empty());
                    assert(out@ =~= basep + spec_iparams(param_types@, 0));
                    assert(wf_idecl(env@[id as int]));
                }
                while p < nparams
                    invariant
                        0 <= p <= nparams,
                        nparams == param_types@.len(),
                        out@ == basep + spec_iparams(param_types@, p as nat),
                        id < env@.len(),
                        env@[id as int].c is DataType,
                        param_types == env@[id as int].c->DataType_param_types,
                        wf_iparams(param_types@, param_types@.len() as nat),
                    decreases nparams - p,
                {
                    out.append(" '");
                    let mut arg = String::new();
                    proof {
                        assert(decreases_to!(*env => env@[id as int]));
                        assert(decreases_to!(env@[id as int] => env@[id as int].c));
                        assert(decreases_to!(env@[id as int].c => *param_types));
                        assert(decreases_to!(*param_types => param_types@[p as int]));
                        assert(decreases_to!(param_types@[p as int] => param_types@[p as int].0));
                        assert(decreases_to!(param_types@[p as int].0 => *param_types@[p as int].0.term));
                        lemma_wf_iparams_index(param_types@, param_types@.len() as nat, p as int);
                    }
                    param_types[p].0.term.fmt_at(&mut arg, 0);
                    write_arg(out, arg.as_str(), param_types[p].1);
                    proof {
                        assert(spec_eterm(param_types@[p as int].0) == spec_expr(
                            *param_types@[p as int].0.term,
                            0,
                        ));
                        assert(spec_iparams(param_types@, (p + 1) as nat) == spec_iparams(
                            param_types@,
                            p as nat,
                        ) + " '"@ + spec_arg(
                            spec_eterm(param_types@[p as int].0),
                            param_types@[p as int].1 as nat,
                        ));
                        assert(out@ =~= basep + spec_iparams(param_types@, (p + 1) as nat));
                    }
                    p += 1;
                }
                out.append(" : ");
                proof {
                    assert(decreases_to!(*env => env@[id as int]));
                    assert(decreases_to!(env@[id as int] => env@[id as int].type_));
                }
                env[id].type_.term.fmt_at(out, 0);
                out.append(" { ... }\n");
                proof {
                    assert(spec_eterm(env@[id as int].type_) == spec_expr(
                        *env@[id as int].type_.term,
                        0,
                    ));
                }
            },
            InferConst::Ctor { datatype } => {
                out.append("#");
                proof {
                    reveal_strlit("#");
                    assert(decreases_to!(env@[id as int] => env@[id as int].type_));
                }
                push_dec_usize(out, *datatype);
                out.append(".#");
                push_dec_usize(out, id);
                out.append(" : ");
                env[id].type_.term.fmt_at(out, 0);
                proof {
                    assert(spec_eterm(env@[id as int].type_) == spec_expr(
                        *env@[id as int].type_.term,
                        0,
                    ));
                }
            },
        }
        out.append("\n");
        proof {
            reveal_strlit("\n");
            assert(spec_ienv(env@, (id + 1) as nat, lvl) == spec_ienv(env@, id as nat, lvl)
                + spec_idecl(env@[id as int], id as nat, lvl));
            assert(out@ =~= base0 + spec_ienv(env@, (id + 1) as nat, lvl));
        }
        id += 1;
    }
}

/// An infer environment as a displayable unit.
pub struct InferEnvDummy(pub InferEnv);

impl InferEnvDummy {
    /// Renders the environment at indentation 0.
    pub fn fmt(&self) -> (r: String)
        requires
            wf_ienv(self.0@, self.0@.len() as nat),
        ensures
            r@ == spec_ienv(self.0@, self.0@.len() as nat, 0),
    {
        let mut out = String::new();
        fmt_infer_env(&self.0, &mut out, 0);
        out
    }
}

/// The locals section of a context: each hypothesis on its own line.
pub open spec fn spec_locals(ls: Seq<InferTypedTerm>, n: nat) -> Seq<char>
    decreases ls, n,
{
    if n == 0 || n > ls.len() {
        Seq::empty()
    } else {
        spec_locals(ls, (n - 1) as nat) + spec_indent(1) + spec_typed(ls[n - 1]) + "\n"@
    }
}

/// The typings section of a context: each pair on its own line.
pub open spec fn spec_ctx_typings(ts: Seq<(InferTypedTerm, InferTypedTerm)>, n: nat) -> Seq<char>
    decreases ts, n,
{
    if n == 0 || n > ts.len() {
        Seq::empty()
    } else {
        spec_ctx_typings(ts, (n - 1) as nat) + spec_indent(1) + spec_typed(ts[n - 1].0) + " : "@
            + spec_typed(ts[n - 1].1) + "\n"@
    }
}

/// Well-formedness of the locals of a context.
pub open spec fn wf_locals(ls: Seq<InferTypedTerm>, n: nat) -> bool
    decreases ls, n,
{
    if n == 0 || n > ls.len() {
        true
    } else {
        wf_locals(ls, (n - 1) as nat) && wf_typed(ls[n - 1])
    }
}

/// Well-formedness of the typings of a context.
pub open spec fn wf_ctx_typings(ts: Seq<(InferTypedTerm, InferTypedTerm)>, n: nat) -> bool
    decreases ts, n,
{
    if n == 0 || n > ts.len() {
        true
    } else {
        wf_ctx_typings(ts, (n - 1) as nat) && wf_typed(ts[n - 1].0) && wf_typed(ts[n - 1].1)
    }
}

/// Well-formedness of a whole elaboration context.
pub open spec fn wf_ictx(ctx: InferCtx) -> bool {
    &&& wf_ienv(ctx.consts@, ctx.consts@.len() as nat)
    &&& wf_locals(ctx.local@, ctx.local@.len() as nat)
    &&& wf_ctx_typings(ctx.typings@, ctx.typings@.len() as nat)
}

/// The rendering of a whole context: declarations in braces, local
/// hypotheses in square brackets, typings in angle brackets.
pub open spec fn spec_ictx(ctx: InferCtx) -> Seq<char> {
    "{\n"@ + spec_ienv(ctx.consts@, ctx.consts@.len() as nat, 1) + "}\n"@ + "[\n"@ + spec_locals(
        ctx.local@,
        ctx.local@.len() as nat,
    ) + "]\n"@ + "<\n"@ + spec_ctx_typings(ctx.typings@, ctx.typings@.len() as nat) + ">\n"@
}

/// A local of a well-formed locals list is well-formed.
proof fn lemma_wf_locals_index(ls: Seq<InferTypedTerm>, n: nat, i: int)
    requires
        wf_locals(ls, n),
        0 <= i < n,
        n <= ls.len(),
    ensures
        wf_typed(ls[i]),
    decreases n,
{
    if i + 1 < n {
        lemma_wf_locals_index(ls, (n - 1) as nat, i);
    }
}

/// A pair of a well-formed typings list is well-formed.
proof fn lemma_wf_ctx_typings_index(ts: Seq<(InferTypedTerm, InferTypedTerm)>, n: nat, i: int)
    requires
        wf_ctx_typings(ts, n),
        0 <= i < n,
        n <= ts.len(),
    ensures
        wf_typed(ts[i].0) && wf_typed(ts[i].1),
    decreases n,
{
    if i + 1 < n {
        lemma_wf_ctx_typings_index(ts, (n - 1) as nat, i);
    }
}

impl InferCtx {
    /// Renders the context.
    #[verifier::rlimit(100)]
    pub fn fmt(&self) -> (r: String)
        requires
            wf_ictx(*self),
        ensures
            r@ == spec_ictx(*self),
    {
        let mut out = String::new();
        out.append("{\n");
        fmt_infer_env(&self.consts, &mut out, 1);
        out.append("}\n");
        out.append("[\n");
        let ghost base0 = out@;
        let nlocal = self.local.len();
        let mut i: usize = 0;
        proof {
            assert(spec_locals(self.local@, 0) =~= Seq::<char>::empty());
            assert(out@ =~= base0 + spec_locals(self.local@, 0));
        }
        while i < nlocal
            invariant
                0 <= i <= nlocal,
                nlocal == self.local@.len(),
                out@ == base0 + spec_locals(self.local@, i as nat),
                wf_locals(self.local@, self.local@.len() as nat),
            decreases nlocal - i,
        {
            write_indent(&mut out, 1);
            proof {
                lemma_wf_locals_index(self.local@, self.local@.len() as nat, i as int);
            }
            self.local[i].fmt_into(&mut out);
            out.append("\n");
            proof {
                reveal_strlit("\n");
                assert(spec_locals(self.local@, (i + 1) as nat) == spec_locals(
                    self.local@,
                    i as nat,
                ) + spec_indent(1) + spec_typed(self.local@[i as int]) + "\n"@);
                assert(out@ =~= base0 + spec_locals(self.local@, (i + 1) as nat));
            }
            i += 1;
        }
        out.append("]\n");
        out.append("<\n");
        let ghost base1 = out@;
        let ntypings = self.typings.len();
        let mut ti: usize = 0;
        proof {
            assert(spec_ctx_typings(self.typings@, 0) =~= Seq::<char>::empty());
            assert(out@ =~= base1 + spec_ctx_typings(self.typings@, 0));
        }
        while ti < ntypings
            invariant
                0 <= ti <= ntypings,
                ntypings == self.typings@.len(),
                out@ == base1 + spec_ctx_typings(self.typings@, ti as nat),
                wf_ctx_typings(self.typings@, self.typings@.len() as nat),
            decreases ntypings - ti,
        {
            write_indent(&mut out, 1);
            proof {
                lemma_wf_ctx_typings_index(self.typings@, self.typings@.len() as nat, ti as int);
            }
            self.typings[ti].0.fmt_into(&mut out);
            out.append(" : ");
            self.typings[ti].1.fmt_into(&mut out);
            out.append("\n");
            proof {
                reveal_strlit("\n");
                assert(spec_ctx_typings(self.typings@, (ti + 1) as nat) == spec_ctx_typings(
                    self.typings@,
                    ti as nat,
                ) + spec_indent(1) + spec_typed(self.typings@[ti as int].0) + " : "@ + spec_typed(
                    self.typings@[ti as int].1,
                ) + "\n"@);
                assert(out@ =~= base1 + spec_ctx_typings(self.typings@, (ti + 1) as nat));
            }
            ti += 1;
        }
        out.append(">\n");
        proof {
            assert(out@ =~= spec_ictx(*self));
        }
        out
    }
}

/// The rendering of a unification constraint.
pub open spec fn spec_equal(eq: Equal) -> Seq<char> {
    match eq {
        Equal::ToId(a, b) => seq!['?'] + spec_dec(a as nat) + " = ?"@ + spec_dec(b as nat),
        Equal::Instantiate(id, t) => seq!['?'] + spec_dec(id as nat) + " := "@ + spec_eterm(t),
    }
}

impl Equal {
    /// Renders the constraint.
    pub fn fmt(&self) -> (r: String)
        requires
            self matches Equal::Instantiate(_, t) ==> wf_eterm(*t),
        ensures
            r@ == spec_equal(*self),
    {
        let mut out = String::new();
        match self {
            Equal::ToId(a, b) => {
                out.append("?");
                push_dec_usize(&mut out, *a);
                out.append(" = ?");
                push_dec_usize(&mut out, *b);
                proof {
                    reveal_strlit("?");
                }
            },
            Equal::Instantiate(id, t) => {
                out.append("?");
                push_dec_usize(&mut out, *id);
                out.append(" := ");
                t.term.fmt_at(&mut out, 0);
                proof {
                    reveal_strlit("?");
                    assert(spec_eterm(*t) == spec_expr(*t.term, 0));
                }
            },
        }
        proof {
            assert(out@ =~= spec_equal(*self));
        }
        out
    }
}

/// The rendering of a fully-qualified name: each qualifier segment with a
/// trailing dot, then the identifier.
pub open spec fn spec_quals(qs: Seq<String>, n: nat) -> Seq<char>
    decreases n,
{
    if n == 0 || n > qs.len() {
        Seq::empty()
    } else {
        spec_quals(qs, (n - 1) as nat) + qs[n - 1]@ + seq!['.']
    }
}

/// The rendering of a `Name`.
pub open spec fn spec_name(n: Name) -> Seq<char> {
    spec_quals(n.qualifier@, n.qualifier@.len() as nat) + n.identifier@
}

impl Name {
    /// Renders the name.
    pub fn fmt(&self) -> (r: String)
        ensures
            r@ == spec_name(*self),
    {
        let mut out = String::new();
        let nq = self.qualifier.len();
        let mut i: usize = 0;
        proof {
            assert(spec_quals(self.qualifier@, 0) =~= Seq::<char>::empty());
            assert(out@ =~= spec_quals(self.qualifier@, 0));
        }
        while i < nq
            invariant
                0 <= i <= nq,
                nq == self.qualifier@.len(),
                out@ == spec_quals(self.qualifier@, i as nat),
            decreases nq - i,
        {
            out.append(self.qualifier[i].as_str());
            out.append(".");
            proof {
                reveal_strlit(".");
                assert(out@ =~= spec_quals(self.qualifier@, (i + 1) as nat));
            }
            i += 1;
        }
        out.append(self.identifier.as_str());
        proof {
            assert(out@ =~= spec_name(*self));
        }
        out
    }
}

} // verus!
