use vstd::prelude::*;
use crate::eval::{aeval, beval, exec_cmd, lemma_outcome, outcome, terminates, State};
use crate::op::{aop_value, bop_value, cop_value};
use crate::syntax::{same_a, same_b, same_c, Aexpr, Aop, Bexpr, Bop, Cmd, Cop};

verus! {

/// The folding rule for an arithmetic operator whose operands are already folded.
pub open spec fn fold_aop(o: Aop, f1: Aexpr, f2: Aexpr) -> Aexpr {
    if f1 is Int && f2 is Int {
        Aexpr::Int(aop_value(o, f1->Int_0, f2->Int_0))
    } else if o == Aop::Add && f1 == Aexpr::Int(0) {
        f2
    } else if o == Aop::Add && f2 == Aexpr::Int(0) {
        f1
    } else if o == Aop::Mul && f1 == Aexpr::Int(1) {
        f2
    } else if o == Aop::Mul && f2 == Aexpr::Int(1) {
        f1
    } else if o == Aop::Sub && f2 == Aexpr::Int(0) {
        f1
    } else if o == Aop::Mul && (f1 == Aexpr::Int(0) || f2 == Aexpr::Int(0)) {
        Aexpr::Int(0)
    } else if o == Aop::Sub && same_a(f1, f2) {
        Aexpr::Int(0)
    } else {
        Aexpr::Op(o, Box::new(f1), Box::new(f2))
    }
}

/// Constant folding of an arithmetic expression, children first.
pub open spec fn fold_a(e: Aexpr) -> Aexpr
    decreases e,
{
    match e {
        Aexpr::Op(o, e1, e2) => fold_aop(o, fold_a(*e1), fold_a(*e2)),
        _ => e,
    }
}

/// The folding rule for a comparison whose operands are already folded.
pub open spec fn fold_cop(o: Cop, f1: Aexpr, f2: Aexpr) -> Bexpr {
    if f1 is Int && f2 is Int {
        Bexpr::Bool(cop_value(o, f1->Int_0, f2->Int_0))
    } else if o == Cop::Eq && same_a(f1, f2) {
        Bexpr::Bool(true)
    } else {
        Bexpr::Cop(o, Box::new(f1), Box::new(f2))
    }
}

/// The folding rule for a boolean combinator whose operands are already folded.
pub open spec fn fold_bop(o: Bop, g1: Bexpr, g2: Bexpr) -> Bexpr {
    if g1 is Bool && g2 is Bool {
        Bexpr::Bool(bop_value(o, g1->Bool_0, g2->Bool_0))
    } else if o == Bop::And && g1 == Bexpr::Bool(true) {
        g2
    } else if o == Bop::And && g2 == Bexpr::Bool(true) {
        g1
    } else if o == Bop::Or && g1 == Bexpr::Bool(false) {
        g2
    } else if o == Bop::Or && g2 == Bexpr::Bool(false) {
        g1
    } else if o == Bop::And && (g1 == Bexpr::Bool(false) || g2 == Bexpr::Bool(false)) {
        Bexpr::Bool(false)
    } else if o == Bop::Or && (g1 == Bexpr::Bool(true) || g2 == Bexpr::Bool(true)) {
        Bexpr::Bool(true)
    } else if same_b(g1, g2) {
        g1
    } else {
        Bexpr::Bop(o, Box::new(g1), Box::new(g2))
    }
}

/// Constant folding of a boolean expression, children first.
pub open spec fn fold_b(b: Bexpr) -> Bexpr
    decreases b,
{
    match b {
        Bexpr::Bool(v) => Bexpr::Bool(v),
        Bexpr::Not(b1) => match fold_b(*b1) {
            Bexpr::Bool(v) => Bexpr::Bool(!v),
            g => Bexpr::Not(Box::new(g)),
        },
        Bexpr::Cop(o, e1, e2) => fold_cop(o, fold_a(*e1), fold_a(*e2)),
        Bexpr::Bop(o, b1, b2) => fold_bop(o, fold_b(*b1), fold_b(*b2)),
    }
}

/// Constant folding of a command, children first. A loop whose guard folds
/// to `false` disappears; any other loop keeps its guard as written.
pub open spec fn fold_c(c: Cmd) -> Cmd
    decreases c,
{
    match c {
        Cmd::Skip => Cmd::Skip,
        Cmd::Ass(x, e) => Cmd::Ass(x, Box::new(fold_a(*e))),
        Cmd::Print(e) => Cmd::Print(Box::new(fold_a(*e))),
        Cmd::Sequence(c1, c2) => {
            let d1 = fold_c(*c1);
            let d2 = fold_c(*c2);
            if d1 is Skip {
                d2
            } else if d2 is Skip {
                d1
            } else {
                Cmd::Sequence(Box::new(d1), Box::new(d2))
            }
        },
        Cmd::If(b, c1, c2) => {
            let g = fold_b(*b);
            let d1 = fold_c(*c1);
            let d2 = fold_c(*c2);
            if g is Bool {
                if g->Bool_0 {
                    d1
                } else {
                    d2
                }
            } else if same_c(d1, d2) {
                d1
            } else {
                Cmd::If(Box::new(g), Box::new(d1), Box::new(d2))
            }
        },
        Cmd::While(b, body) => {
            if fold_b(*b) == Bexpr::Bool(false) {
                Cmd::Skip
            } else {
                Cmd::While(b, Box::new(fold_c(*body)))
            }
        },
    }
}

fn is_int(e: &Aexpr, z: i32) -> (r: bool)
    ensures
        r == (*e == Aexpr::Int(z)),
{
    match e {
        Aexpr::Int(y) => *y == z,
        _ => false,
    }
}

fn is_bool(b: &Bexpr, v: bool) -> (r: bool)
    ensures
        r == (*b == Bexpr::Bool(v)),
{
    match b {
        Bexpr::Bool(w) => *w == v,
        _ => false,
    }
}

fn fold_aop_exec(o: Aop, f1: Aexpr, f2: Aexpr) -> (r: Aexpr)
    ensures
        r == fold_aop(o, f1, f2),
{
    if let (Aexpr::Int(z1), Aexpr::Int(z2)) = (&f1, &f2) {
        return Aexpr::Int(o.eval(*z1, *z2));
    }
    if o == Aop::Add && is_int(&f1, 0) {
        f2
    } else if o == Aop::Add && is_int(&f2, 0) {
        f1
    } else if o == Aop::Mul && is_int(&f1, 1) {
        f2
    } else if o == Aop::Mul && is_int(&f2, 1) {
        f1
    } else if o == Aop::Sub && is_int(&f2, 0) {
        f1
    } else if o == Aop::Mul && (is_int(&f1, 0) || is_int(&f2, 0)) {
        Aexpr::Int(0)
    } else if o == Aop::Sub && f1.same(&f2) {
        Aexpr::Int(0)
    } else {
        Aexpr::Op(o, Box::new(f1), Box::new(f2))
    }
}

fn fold_cop_exec(o: Cop, f1: Aexpr, f2: Aexpr) -> (r: Bexpr)
    ensures
        r == fold_cop(o, f1, f2),
{
    if let (Aexpr::Int(z1), Aexpr::Int(z2)) = (&f1, &f2) {
        return Bexpr::Bool(o.eval(*z1, *z2));
    }
    if o == Cop::Eq && f1.same(&f2) {
        Bexpr::Bool(true)
    } else {
        Bexpr::Cop(o, Box::new(f1), Box::new(f2))
    }
}

fn fold_bop_exec(o: Bop, g1: Bexpr, g2: Bexpr) -> (r: Bexpr)
    ensures
        r == fold_bop(o, g1, g2),
{
    if let (Bexpr::Bool(v1), Bexpr::Bool(v2)) = (&g1, &g2) {
        return Bexpr::Bool(o.eval(*v1, *v2));
    }
    if o == Bop::And && is_bool(&g1, true) {
        g2
    } else if o == Bop::And && is_bool(&g2, true) {
        g1
    } else if o == Bop::Or && is_bool(&g1, false) {
        g2
    } else if o == Bop::Or && is_bool(&g2, false) {
        g1
    } else if o == Bop::And && (is_bool(&g1, false) || is_bool(&g2, false)) {
        Bexpr::Bool(false)
    } else if o == Bop::Or && (is_bool(&g1, true) || is_bool(&g2, true)) {
        Bexpr::Bool(true)
    } else if g1.same(&g2) {
        g1
    } else {
        Bexpr::Bop(o, Box::new(g1), Box::new(g2))
    }
}

impl Aexpr {
    /// Constant folding: computes constant operations, removes identity and
    /// absorbing operands, and turns `e - e` into `0`.
    pub fn fold(&self) -> (r: Aexpr)
        ensures
            r == fold_a(*self),
        decreases self,
    {
        match self {
            Aexpr::Int(z) => Aexpr::Int(*z),
            Aexpr::Var(x) => Aexpr::Var(x.clone()),
            Aexpr::Op(o, e1, e2) => fold_aop_exec(*o, e1.fold(), e2.fold()),
        }
    }
}

impl Bexpr {
    /// Constant folding: computes constant operations and negations, applies
    /// the identity and absorbing literals of `and` and `or`, and turns
    /// `e =? e`, `e and e`, `e or e` into `true`, `e`, `e`.
    pub fn fold(&self) -> (r: Bexpr)
        ensures
            r == fold_b(*self),
        decreases self,
    {
        match self {
            Bexpr::Bool(v) => Bexpr::Bool(*v),
            Bexpr::Not(b) => match b.fold() {
                Bexpr::Bool(v) => Bexpr::Bool(!v),
                g => Bexpr::Not(Box::new(g)),
            },
            Bexpr::Cop(o, e1, e2) => fold_cop_exec(*o, e1.fold(), e2.fold()),
            Bexpr::Bop(o, b1, b2) => fold_bop_exec(*o, b1.fold(), b2.fold()),
        }
    }
}

impl Cmd {
    /// Constant folding of a program: folds every expression, drops `skip`
    /// from sequences, resolves conditionals with a constant guard or equal
    /// branches, and removes loops whose guard is constantly false.
    pub fn fold(&self) -> (r: Cmd)
        ensures
            r == fold_c(*self),
        decreases self,
    {
        match self {
            Cmd::Skip => Cmd::Skip,
            Cmd::Ass(x, e) => Cmd::Ass(x.clone(), Box::new(e.fold())),
            Cmd::Print(e) => Cmd::Print(Box::new(e.fold())),
            Cmd::Sequence(c1, c2) => {
                let d1 = c1.fold();
                let d2 = c2.fold();
                if matches!(d1, Cmd::Skip) {
                    d2
                } else if matches!(d2, Cmd::Skip) {
                    d1
                } else {
                    Cmd::Sequence(Box::new(d1), Box::new(d2))
                }
            },
            Cmd::If(b, c1, c2) => {
                let g = b.fold();
                let d1 = c1.fold();
                let d2 = c2.fold();
                if let Bexpr::Bool(v) = g {
                    if v {
                        d1
                    } else {
                        d2
                    }
                } else if d1.same(&d2) {
                    d1
                } else {
                    Cmd::If(Box::new(g), Box::new(d1), Box::new(d2))
                }
            },
            Cmd::While(b, body) => {
                let g = b.fold();
                if is_bool(&g, false) {
                    Cmd::Skip
                } else {
                    Cmd::While(Box::new(b.copy()), Box::new(body.fold()))
                }
            },
        }
    }
}

proof fn lemma_fold_a_idem(e: Aexpr)
    ensures
        fold_a(fold_a(e)) == fold_a(e),
    decreases e,
{
    if let Aexpr::Op(o, e1, e2) = e {
        lemma_fold_a_idem(*e1);
        lemma_fold_a_idem(*e2);
    }
}

proof fn lemma_fold_b_idem(b: Bexpr)
    ensures
        fold_b(fold_b(b)) == fold_b(b),
    decreases b,
{
    match b {
        Bexpr::Not(b1) => lemma_fold_b_idem(*b1),
        Bexpr::Cop(o, e1, e2) => {
            lemma_fold_a_idem(*e1);
            lemma_fold_a_idem(*e2);
        },
        Bexpr::Bop(o, b1, b2) => {
            lemma_fold_b_idem(*b1);
            lemma_fold_b_idem(*b2);
        },
        _ => {},
    }
}

/// Folding is idempotent: folding a folded program changes nothing.
pub proof fn lemma_fold_idempotent(c: Cmd)
    ensures
        fold_c(fold_c(c)) == fold_c(c),
    decreases c,
{
    match c {
        Cmd::Ass(x, e) => lemma_fold_a_idem(*e),
        Cmd::Print(e) => lemma_fold_a_idem(*e),
        Cmd::Sequence(c1, c2) => {
            lemma_fold_idempotent(*c1);
            lemma_fold_idempotent(*c2);
        },
        Cmd::If(b, c1, c2) => {
            lemma_fold_b_idem(*b);
            lemma_fold_idempotent(*c1);
            lemma_fold_idempotent(*c2);
        },
        Cmd::While(b, body) => {
            lemma_fold_idempotent(*body);
        },
        _ => {},
    }
}

proof fn lemma_wrap_identities(z: i32)
    ensures
        z.wrapping_add(0) == z,
        (0i32).wrapping_add(z) == z,
        z.wrapping_sub(0) == z,
        z.wrapping_sub(z) == 0,
        z.wrapping_mul(1) == z,
        (1i32).wrapping_mul(z) == z,
        z.wrapping_mul(0) == 0,
        (0i32).wrapping_mul(z) == 0,
{
}

proof fn lemma_same_a_eval(a: Aexpr, b: Aexpr, m: Map<Seq<char>, i32>)
    requires
        same_a(a, b),
    ensures
        aeval(a, m) == aeval(b, m),
    decreases a,
{
    if let (Aexpr::Op(o, a1, a2), Aexpr::Op(p, b1, b2)) = (a, b) {
        lemma_same_a_eval(*a1, *b1, m);
        lemma_same_a_eval(*a2, *b2, m);
    }
}

proof fn lemma_same_b_eval(a: Bexpr, b: Bexpr, m: Map<Seq<char>, i32>)
    requires
        same_b(a, b),
    ensures
        beval(a, m) == beval(b, m),
    decreases a,
{
    match (a, b) {
        (Bexpr::Not(a1), Bexpr::Not(b1)) => lemma_same_b_eval(*a1, *b1, m),
        (Bexpr::Cop(o, a1, a2), Bexpr::Cop(p, b1, b2)) => {
            lemma_same_a_eval(*a1, *b1, m);
            lemma_same_a_eval(*a2, *b2, m);
        },
        (Bexpr::Bop(o, a1, a2), Bexpr::Bop(p, b1, b2)) => {
            lemma_same_b_eval(*a1, *b1, m);
            lemma_same_b_eval(*a2, *b2, m);
        },
        _ => {},
    }
}

proof fn lemma_same_c_exec(c: Cmd, d: Cmd, st: State, f: nat)
    requires
        same_c(c, d),
    ensures
        exec_cmd(c, st, f) == exec_cmd(d, st, f),
    decreases f, c,
{
    match (c, d) {
        (Cmd::Ass(x, a1), Cmd::Ass(y, b1)) => lemma_same_a_eval(*a1, *b1, st.0),
        (Cmd::Print(a1), Cmd::Print(b1)) => lemma_same_a_eval(*a1, *b1, st.0),
        (Cmd::Sequence(a1, a2), Cmd::Sequence(b1, b2)) => {
            lemma_same_c_exec(*a1, *b1, st, f);
            if let Some(Ok(st1)) = exec_cmd(*a1, st, f) {
                lemma_same_c_exec(*a2, *b2, st1, f);
            }
        },
        (Cmd::If(g, a1, a2), Cmd::If(h, b1, b2)) => {
            lemma_same_b_eval(*g, *h, st.0);
            lemma_same_c_exec(*a1, *b1, st, f);
            lemma_same_c_exec(*a2, *b2, st, f);
        },
        (Cmd::While(g, a1), Cmd::While(h, b1)) => {
            lemma_same_b_eval(*g, *h, st.0);
            lemma_same_c_exec(*a1, *b1, st, f);
            if f > 0 {
                if let Some(Ok(st1)) = exec_cmd(*a1, st, f) {
                    lemma_same_c_exec(c, d, st1, (f - 1) as nat);
                }
            }
        },
        _ => {},
    }
}

proof fn lemma_fold_a_eval(e: Aexpr, m: Map<Seq<char>, i32>)
    requires
        aeval(e, m) is Ok,
    ensures
        aeval(fold_a(e), m) == aeval(e, m),
    decreases e,
{
    if let Aexpr::Op(o, e1, e2) = e {
        lemma_fold_a_eval(*e1, m);
        lemma_fold_a_eval(*e2, m);
        let f1 = fold_a(*e1);
        let f2 = fold_a(*e2);
        lemma_wrap_identities(aeval(*e1, m)->Ok_0);
        lemma_wrap_identities(aeval(*e2, m)->Ok_0);
        if same_a(f1, f2) {
            lemma_same_a_eval(f1, f2, m);
        }
    }
}

proof fn lemma_fold_b_eval(b: Bexpr, m: Map<Seq<char>, i32>)
    requires
        beval(b, m) is Ok,
    ensures
        beval(fold_b(b), m) == beval(b, m),
    decreases b,
{
    match b {
        Bexpr::Not(b1) => lemma_fold_b_eval(*b1, m),
        Bexpr::Cop(o, e1, e2) => {
            lemma_fold_a_eval(*e1, m);
            lemma_fold_a_eval(*e2, m);
            let f1 = fold_a(*e1);
            let f2 = fold_a(*e2);
            if same_a(f1, f2) {
                lemma_same_a_eval(f1, f2, m);
            }
        },
        Bexpr::Bop(o, b1, b2) => {
            lemma_fold_b_eval(*b1, m);
            lemma_fold_b_eval(*b2, m);
            let g1 = fold_b(*b1);
            let g2 = fold_b(*b2);
            if same_b(g1, g2) {
                lemma_same_b_eval(g1, g2, m);
            }
        },
        _ => {},
    }
}

proof fn lemma_fold_c_exec(c: Cmd, st: State, f: nat)
    requires
        exec_cmd(c, st, f) matches Some(Ok(_)),
    ensures
        exec_cmd(fold_c(c), st, f) == exec_cmd(c, st, f),
    decreases f, c,
{
    match c {
        Cmd::Ass(x, e) => lemma_fold_a_eval(*e, st.0),
        Cmd::Print(e) => lemma_fold_a_eval(*e, st.0),
        Cmd::Sequence(c1, c2) => {
            lemma_fold_c_exec(*c1, st, f);
            let st1 = exec_cmd(*c1, st, f)->Some_0->Ok_0;
            lemma_fold_c_exec(*c2, st1, f);
        },
        Cmd::If(b, c1, c2) => {
            lemma_fold_b_eval(*b, st.0);
            let d1 = fold_c(*c1);
            let d2 = fold_c(*c2);
            if beval(*b, st.0) == Ok::<bool, Seq<char>>(true) {
                lemma_fold_c_exec(*c1, st, f);
            } else {
                lemma_fold_c_exec(*c2, st, f);
                if same_c(d1, d2) {
                    lemma_same_c_exec(d1, d2, st, f);
                }
            }
        },
        Cmd::While(b, body) => {
            lemma_fold_b_eval(*b, st.0);
            if beval(*b, st.0) == Ok::<bool, Seq<char>>(true) {
                lemma_fold_c_exec(*body, st, f);
                let st1 = exec_cmd(*body, st, f)->Some_0->Ok_0;
                lemma_fold_c_exec(c, st1, (f - 1) as nat);
            }
        },
        _ => {},
    }
}

/// Folding preserves every run that ends normally: the folded program ends
/// too, with the same store and the same printed values.
pub proof fn lemma_fold_preserves(c: Cmd, st: State)
    requires
        terminates(c, st),
        outcome(c, st) is Ok,
    ensures
        terminates(fold_c(c), st),
        outcome(fold_c(c), st) == outcome(c, st),
{
    let f = choose|f: nat| (#[trigger] exec_cmd(c, st, f)) is Some;
    lemma_outcome(c, st, f);
    lemma_fold_c_exec(c, st, f);
    lemma_outcome(fold_c(c), st, f);
}

/// Folding adds no failure: where the folded program's run ends on an
/// unbound variable, the run of the program as written does not end
/// normally (it fails too, or does not end).
pub proof fn lemma_fold_adds_no_failure(c: Cmd, st: State)
    requires
        terminates(fold_c(c), st),
        outcome(fold_c(c), st) is Err,
    ensures
        !(terminates(c, st) && outcome(c, st) is Ok),
{
    if terminates(c, st) && outcome(c, st) is Ok {
        lemma_fold_preserves(c, st);
    }
}

} // verus!
