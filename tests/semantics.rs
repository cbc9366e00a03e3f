use imp::error::Error;
use imp::lexer::tokenize;
use imp::parser::parse;
use imp::store::Store;
use imp::syntax::{Aexpr, Aop, Bexpr, Bop, Cmd, Cop};

fn program(src: &str) -> Cmd {
    parse(tokenize(src).unwrap()).unwrap()
}

fn lit(z: i32) -> Box<Aexpr> {
    Box::new(Aexpr::Int(z))
}

fn var(x: &str) -> Box<Aexpr> {
    Box::new(Aexpr::Var(x.to_string()))
}

fn op(o: Aop, a: Box<Aexpr>, b: Box<Aexpr>) -> Box<Aexpr> {
    Box::new(Aexpr::Op(o, a, b))
}

fn tt() -> Box<Bexpr> {
    Box::new(Bexpr::Bool(true))
}

fn ff() -> Box<Bexpr> {
    Box::new(Bexpr::Bool(false))
}

fn bop(o: Bop, a: Box<Bexpr>, b: Box<Bexpr>) -> Box<Bexpr> {
    Box::new(Bexpr::Bop(o, a, b))
}

fn cmp(o: Cop, a: Box<Aexpr>, b: Box<Aexpr>) -> Box<Bexpr> {
    Box::new(Bexpr::Cop(o, a, b))
}

fn run(c: &Cmd) -> (Result<(), Error>, Store, Vec<i32>) {
    let mut s = Store::new();
    let mut out = Vec::new();
    let r = c.eval(&mut s, &mut out);
    (r, s, out)
}

/// Steps until no reduction is left, or an error, or the budget runs out.
fn run_steps(c: &Cmd, budget: usize) -> (Result<bool, Error>, Cmd, Store, Vec<i32>) {
    let mut c = c.clone();
    let mut s = Store::new();
    let mut out = Vec::new();
    for _ in 0..budget {
        match c.step(&mut s, &mut out) {
            Ok(true) => {}
            other => return (other, c, s, out),
        }
    }
    (Ok(true), c, s, out)
}

#[test]
fn operators_evaluate() {
    assert_eq!(Aop::Add.eval(2, 3), 5);
    assert_eq!(Aop::Sub.eval(2, 3), -1);
    assert_eq!(Aop::Mul.eval(-4, 3), -12);
    assert_eq!(Aop::Add.eval(i32::MAX, 1), i32::MIN);
    assert_eq!(Aop::Mul.eval(65536, 65536), 0);
    assert!(Cop::Eq.eval(4, 4));
    assert!(!Cop::Lt.eval(4, 4));
    assert!(Cop::Lt.eval(-1, 0));
    assert!(!Bop::And.eval(true, false));
    assert!(Bop::Or.eval(false, true));
}

#[test]
fn store_binds_and_overwrites() {
    let mut s = Store::new();
    assert_eq!(s.get("x"), None);
    s.insert("x", 1);
    s.insert("y", 2);
    s.insert("x", 7);
    assert_eq!(s.get("x"), Some(7));
    assert_eq!(s.get("y"), Some(2));
    assert_eq!(s.get("z"), None);
}

#[test]
fn sequencing_and_print() {
    let (r, s, out) = run(&program("x := 2; y := 3; print (x + y)"));
    assert!(r.is_ok());
    assert_eq!(out, vec![5]);
    assert_eq!(s.get("x"), Some(2));
    assert_eq!(s.get("y"), Some(3));
}

#[test]
fn loop_counts_to_three() {
    let (r, s, out) = run(&program("x := 0; while (x <? 3) { x := (x + 1) }"));
    assert!(r.is_ok());
    assert!(out.is_empty());
    assert_eq!(s.get("x"), Some(3));
}

#[test]
fn unbound_variable_in_print() {
    let (r, _, out) = run(&program("print y"));
    match r {
        Err(Error::UnboundVariable(x)) => assert_eq!(x, "y"),
        other => panic!("unexpected {:?}", other),
    }
    assert!(out.is_empty());
}

#[test]
fn failed_run_keeps_earlier_effects() {
    let (r, s, out) = run(&program("x := 1; print x; print y; x := 5"));
    assert!(matches!(r, Err(Error::UnboundVariable(ref y)) if y == "y"));
    assert_eq!(s.get("x"), Some(1));
    assert_eq!(out, vec![1]);
}

#[test]
fn and_does_not_short_circuit() {
    let b = bop(Bop::And, ff(), cmp(Cop::Eq, var("x"), var("x")));
    match b.eval(&Store::new()) {
        Err(Error::UnboundVariable(x)) => assert_eq!(x, "x"),
        other => panic!("unexpected {:?}", other),
    }
    let b = bop(Bop::Or, tt(), cmp(Cop::Lt, var("z"), lit(1)));
    assert!(matches!(b.eval(&Store::new()), Err(Error::UnboundVariable(ref z)) if z == "z"));
}

#[test]
fn left_operand_fails_first() {
    let e = op(Aop::Add, var("a"), var("b"));
    assert!(matches!(e.eval(&Store::new()), Err(Error::UnboundVariable(ref a)) if a == "a"));
}

#[test]
fn if_takes_one_branch() {
    let (r, _, out) = run(&program("if 1 <? 2 { print 1 } else { print y }"));
    assert!(r.is_ok());
    assert_eq!(out, vec![1]);
}

#[test]
fn fold_collapses_constant_if() {
    let c = program("if (2 =? 2) { print 1 } else { print 2 }");
    assert_eq!(c.fold(), Cmd::Print(lit(1)));
}

#[test]
fn fold_arithmetic_rules() {
    assert_eq!(op(Aop::Add, lit(2), lit(3)).fold(), Aexpr::Int(5));
    assert_eq!(op(Aop::Add, var("e"), lit(0)).fold(), Aexpr::Var("e".to_string()));
    assert_eq!(op(Aop::Add, lit(0), var("e")).fold(), Aexpr::Var("e".to_string()));
    assert_eq!(op(Aop::Sub, var("e"), lit(0)).fold(), Aexpr::Var("e".to_string()));
    assert_eq!(op(Aop::Mul, var("e"), lit(1)).fold(), Aexpr::Var("e".to_string()));
    assert_eq!(op(Aop::Mul, lit(1), var("e")).fold(), Aexpr::Var("e".to_string()));
    assert_eq!(op(Aop::Mul, var("e"), lit(0)).fold(), Aexpr::Int(0));
    assert_eq!(op(Aop::Mul, lit(0), var("e")).fold(), Aexpr::Int(0));
    assert_eq!(op(Aop::Sub, var("e"), var("e")).fold(), Aexpr::Int(0));
    assert_eq!(
        op(Aop::Sub, op(Aop::Add, var("a"), lit(1)), op(Aop::Add, var("a"), lit(1))).fold(),
        Aexpr::Int(0)
    );
    assert_eq!(op(Aop::Sub, var("a"), var("b")).fold(), *op(Aop::Sub, var("a"), var("b")));
    assert_eq!(op(Aop::Sub, lit(0), var("e")).fold(), *op(Aop::Sub, lit(0), var("e")));
    assert_eq!(
        op(Aop::Add, op(Aop::Mul, lit(2), lit(3)), var("x")).fold(),
        *op(Aop::Add, lit(6), var("x"))
    );
}

#[test]
fn fold_boolean_rules() {
    let e = || cmp(Cop::Lt, var("x"), lit(1));
    assert_eq!(bop(Bop::And, tt(), e()).fold(), *e());
    assert_eq!(bop(Bop::And, e(), tt()).fold(), *e());
    assert_eq!(bop(Bop::Or, ff(), e()).fold(), *e());
    assert_eq!(bop(Bop::Or, e(), ff()).fold(), *e());
    assert_eq!(bop(Bop::And, ff(), e()).fold(), Bexpr::Bool(false));
    assert_eq!(bop(Bop::And, e(), ff()).fold(), Bexpr::Bool(false));
    assert_eq!(bop(Bop::Or, tt(), e()).fold(), Bexpr::Bool(true));
    assert_eq!(bop(Bop::Or, e(), tt()).fold(), Bexpr::Bool(true));
    assert_eq!(bop(Bop::And, e(), e()).fold(), *e());
    assert_eq!(bop(Bop::Or, e(), e()).fold(), *e());
    assert_eq!(cmp(Cop::Eq, var("x"), var("x")).fold(), Bexpr::Bool(true));
    assert_eq!(cmp(Cop::Lt, var("x"), var("x")).fold(), *cmp(Cop::Lt, var("x"), var("x")));
    assert_eq!(cmp(Cop::Lt, lit(1), lit(2)).fold(), Bexpr::Bool(true));
    assert_eq!(bop(Bop::Or, ff(), ff()).fold(), Bexpr::Bool(false));
    assert_eq!(Bexpr::Not(tt()).fold(), Bexpr::Bool(false));
    assert_eq!(Bexpr::Not(e()).fold(), Bexpr::Not(e()));
}

#[test]
fn fold_command_rules() {
    let p = |z: i32| Box::new(Cmd::Print(lit(z)));
    assert_eq!(Cmd::Sequence(Box::new(Cmd::Skip), p(1)).fold(), *p(1));
    assert_eq!(Cmd::Sequence(p(1), Box::new(Cmd::Skip)).fold(), *p(1));
    assert_eq!(Cmd::Sequence(p(1), p(2)).fold(), Cmd::Sequence(p(1), p(2)));
    let guard = || cmp(Cop::Lt, var("x"), lit(1));
    assert_eq!(Cmd::If(guard(), p(3), p(3)).fold(), *p(3));
    assert_eq!(Cmd::If(guard(), p(3), p(4)).fold(), Cmd::If(guard(), p(3), p(4)));
    assert_eq!(Cmd::If(ff(), p(3), p(4)).fold(), *p(4));
    assert_eq!(Cmd::While(cmp(Cop::Lt, lit(2), lit(1)), p(1)).fold(), Cmd::Skip);
    let unfolded_guard = || bop(Bop::And, tt(), guard());
    let w = Cmd::While(unfolded_guard(), Box::new(Cmd::Print(op(Aop::Add, lit(1), lit(1)))));
    assert_eq!(w.fold(), Cmd::While(unfolded_guard(), p(2)));
}

#[test]
fn fold_if_with_identical_branches_drops_failing_guard() {
    let c = program("if y <? 1 { print 1 } else { print 1 }");
    let (r, _, _) = run(&c);
    assert!(r.is_err());
    let (r, _, out) = run(&c.fold());
    assert!(r.is_ok());
    assert_eq!(out, vec![1]);
}

#[test]
fn fold_is_idempotent() {
    for src in [
        "x := 0; while (x <? 3) { x := (x + 1) }",
        "if (2 =? 2) { print 1 } else { print 2 }",
        "x := (y * 0) + (1 * z); skip; if x <? x { skip } else { skip }",
        "while false or (a =? a) { print (a - a) }",
    ] {
        let once = program(src).fold();
        assert_eq!(once.fold(), once);
    }
}

#[test]
fn fold_preserves_results() {
    for src in [
        "x := 2; y := 3; print (x + y)",
        "x := 0; while (x <? 3) { x := (x + 1); print (x * 1) }",
        "a := 5; if (a - a) =? 0 and true { print (a * 0 + 7) } else { skip }; print a",
    ] {
        let c = program(src);
        let (r1, s1, o1) = run(&c);
        let (r2, s2, o2) = run(&c.fold());
        assert!(r1.is_ok() && r2.is_ok());
        assert_eq!(o1, o2);
        for x in ["a", "x", "y"] {
            assert_eq!(s1.get(x), s2.get(x));
        }
    }
}

#[test]
fn while_unfolds_in_one_step() {
    let mut c = program("while x <? 1 { skip }");
    let mut s = Store::new();
    let mut out = Vec::new();
    assert!(matches!(c.step(&mut s, &mut out), Ok(true)));
    let want = Cmd::If(
        cmp(Cop::Lt, var("x"), lit(1)),
        Box::new(Cmd::Sequence(
            Box::new(Cmd::Skip),
            Box::new(Cmd::While(cmp(Cop::Lt, var("x"), lit(1)), Box::new(Cmd::Skip))),
        )),
        Box::new(Cmd::Skip),
    );
    assert_eq!(c, want);
    assert!(matches!(c.step(&mut s, &mut out), Err(Error::UnboundVariable(ref x)) if x == "x"));
    assert_eq!(c, want);
}

#[test]
fn expression_steps_leftmost_innermost() {
    let mut s = Store::new();
    s.insert("x", 4);
    let mut e = *op(Aop::Mul, op(Aop::Add, lit(1), lit(2)), var("x"));
    assert!(matches!(e.step(&s), Ok(true)));
    assert_eq!(e, *op(Aop::Mul, lit(3), var("x")));
    assert!(matches!(e.step(&s), Ok(true)));
    assert_eq!(e, *op(Aop::Mul, lit(3), lit(4)));
    assert!(matches!(e.step(&s), Ok(true)));
    assert_eq!(e, Aexpr::Int(12));
    assert!(matches!(e.step(&s), Ok(false)));
    let mut b = *bop(Bop::Or, cmp(Cop::Eq, lit(1), lit(1)), ff());
    assert!(matches!(b.step(&s), Ok(true)));
    assert_eq!(b, *bop(Bop::Or, tt(), ff()));
    assert!(matches!(b.step(&s), Ok(true)));
    assert_eq!(b, Bexpr::Bool(true));
    assert!(matches!(b.step(&s), Ok(false)));
}

#[test]
fn skip_does_not_step() {
    let mut c = Cmd::Skip;
    let mut s = Store::new();
    let mut out = Vec::new();
    assert!(matches!(c.step(&mut s, &mut out), Ok(false)));
}

#[test]
fn stepping_agrees_with_evaluation() {
    for src in [
        "x := 2; y := 3; print (x + y)",
        "x := 0; while (x <? 3) { x := (x + 1); print x }",
        "if 1 <? 0 or false { print 1 } else { print 2; z := 9 }",
    ] {
        let c = program(src);
        let (r1, s1, o1) = run(&c);
        let (r2, end, s2, o2) = run_steps(&c, 10_000);
        assert!(r1.is_ok());
        assert!(matches!(r2, Ok(false)));
        assert_eq!(end, Cmd::Skip);
        assert_eq!(o1, o2);
        for x in ["x", "y", "z"] {
            assert_eq!(s1.get(x), s2.get(x));
        }
    }
}

#[test]
fn stepping_fails_where_evaluation_fails() {
    let c = program("x := 1; print x; print (x + q)");
    let (r1, s1, o1) = run(&c);
    let (r2, _, s2, o2) = run_steps(&c, 1000);
    assert!(matches!(r1, Err(Error::UnboundVariable(ref q)) if q == "q"));
    assert!(matches!(r2, Err(Error::UnboundVariable(ref q)) if q == "q"));
    assert_eq!(o1, o2);
    assert_eq!(s1.get("x"), s2.get("x"));
}

#[test]
fn program_text_in_source_syntax() {
    let c = program("x := 1 + 2 * y; while x <? 3 and true { print (x - 1) }; if false { skip } else { skip }");
    assert_eq!(
        c.text(),
        "x := (1 + (2 * y));\nwhile ((x <? 3) and true) {\nprint (x - 1)\n};\nif false {\nskip\n} else {\nskip\n}"
    );
    assert_eq!(program(&c.text()), c);
    assert_eq!(Aexpr::Int(-7).text(), "-7");
    assert_eq!(Bexpr::Not(tt()).text(), "(not true)");
}

#[test]
fn normalize_runs_to_skip_within_budget() {
    let mut c = program("x := 0; while (x <? 3) { x := (x + 1); print x }");
    let mut s = Store::new();
    let mut out = Vec::new();
    assert!(matches!(c.normalize(&mut s, &mut out, 10_000), Ok(true)));
    assert_eq!(c, Cmd::Skip);
    assert_eq!(s.get("x"), Some(3));
    assert_eq!(out, vec![1, 2, 3]);
}

#[test]
fn normalize_stops_at_budget_or_error() {
    let mut c = program("x := 1; print y");
    let mut s = Store::new();
    let mut out = Vec::new();
    assert!(matches!(c.normalize(&mut s, &mut out, 1), Ok(false)));
    assert_eq!(c, program("skip; print y"));
    assert!(matches!(c.normalize(&mut s, &mut out, 100), Err(Error::UnboundVariable(ref y)) if y == "y"));
    assert_eq!(c, program("print y"));
    assert_eq!(s.get("x"), Some(1));
    let mut d = Cmd::Skip;
    assert!(matches!(d.normalize(&mut s, &mut out, 0), Ok(false)));
    assert!(matches!(d.normalize(&mut s, &mut out, 1), Ok(true)));
}

#[test]
fn fold_may_drop_a_failing_read() {
    let c = program("print ((x * 0) + y)");
    let (r, _, _) = run(&c);
    assert!(matches!(r, Err(Error::UnboundVariable(ref x)) if x == "x"));
    let f = c.fold();
    assert_eq!(f, Cmd::Print(var("y")));
    let (r, _, _) = run(&f);
    assert!(matches!(r, Err(Error::UnboundVariable(ref y)) if y == "y"));
}
