use vstd::prelude::*;
use crate::eval::{aeval, beval, exec_cmd, lemma_outcome, outcome, terminates, Outcome, State};
use crate::error::Error;
use crate::step::{astep, bstep, cstep};
use crate::store::Store;
use crate::syntax::{Aexpr, Bexpr, Cmd};

verus! {

/// The command and state after `n` steps from `c` in `st`, where each of
/// them is a reduction; `None` where an earlier step fails or finds nothing
/// to reduce.
pub open spec fn run_steps(c: Cmd, st: State, n: nat) -> Option<(Cmd, State)>
    decreases n,
{
    if n == 0 {
        Some((c, st))
    } else {
        match cstep(c, st) {
            Ok(Some((c1, st1))) => run_steps(c1, st1, (n - 1) as nat),
            _ => None,
        }
    }
}

spec fn asize(e: Aexpr) -> nat
    decreases e,
{
    match e {
        Aexpr::Int(_) => 1,
        Aexpr::Var(_) => 2,
        Aexpr::Op(_, e1, e2) => asize(*e1) + asize(*e2) + 1,
    }
}

spec fn bsize(b: Bexpr) -> nat
    decreases b,
{
    match b {
        Bexpr::Bool(_) => 1,
        Bexpr::Not(b1) => bsize(*b1) + 1,
        Bexpr::Cop(_, e1, e2) => asize(*e1) + asize(*e2) + 1,
        Bexpr::Bop(_, b1, b2) => bsize(*b1) + bsize(*b2) + 1,
    }
}

proof fn lemma_astep(e: Aexpr, m: Map<Seq<char>, i32>)
    requires
        !(e is Int),
    ensures
        match astep(e, m) {
            Ok(Some(d)) => aeval(d, m) == aeval(e, m) && asize(d) < asize(e),
            Ok(None) => false,
            Err(x) => aeval(e, m) is Err && aeval(e, m)->Err_0 == x,
        },
    decreases e,
{
    match e {
        Aexpr::Var(x) => {
            assert(astep(e, m) matches Ok(Some(_)) || astep(e, m) matches Err(_));
        },
        Aexpr::Op(o, e1, e2) => {
            if !(*e1 is Int) {
                lemma_astep(*e1, m);
            } else if !(*e2 is Int) {
                lemma_astep(*e2, m);
            }
            assert(astep(e, m) matches Ok(Some(_)) || astep(e, m) matches Err(_));
        },
        _ => {},
    }
}

proof fn lemma_bstep(b: Bexpr, m: Map<Seq<char>, i32>)
    requires
        !(b is Bool),
    ensures
        match bstep(b, m) {
            Ok(Some(d)) => beval(d, m) == beval(b, m) && bsize(d) < bsize(b),
            Ok(None) => false,
            Err(x) => beval(b, m) is Err && beval(b, m)->Err_0 == x,
        },
    decreases b,
{
    reveal_with_fuel(aeval, 2);
    reveal_with_fuel(beval, 2);
    match b {
        Bexpr::Not(b1) => {
            if !(*b1 is Bool) {
                lemma_bstep(*b1, m);
            }
        },
        Bexpr::Cop(o, e1, e2) => {
            if !(*e1 is Int) {
                lemma_astep(*e1, m);
            } else if !(*e2 is Int) {
                lemma_astep(*e2, m);
            }
        },
        Bexpr::Bop(o, b1, b2) => {
            if !(*b1 is Bool) {
                lemma_bstep(*b1, m);
            } else if !(*b2 is Bool) {
                lemma_bstep(*b2, m);
            }
        },
        _ => {},
    }
    assert(bstep(b, m) matches Ok(Some(_)) || bstep(b, m) matches Err(_));
}

proof fn lemma_run_trans(c: Cmd, st: State, a: nat, b: nat)
    requires
        run_steps(c, st, a) is Some,
    ensures
        run_steps(c, st, a + b) == run_steps(run_steps(c, st, a)->Some_0.0, run_steps(c, st, a)->Some_0.1, b),
    decreases a,
{
    if a > 0 {
        let (c1, st1) = cstep(c, st)->Ok_0->Some_0;
        lemma_run_trans(c1, st1, (a - 1) as nat, b);
        assert((a + b - 1) as nat == (a - 1) as nat + b);
    }
}

proof fn lemma_run_seq(c1: Cmd, c2: Cmd, st: State, k: nat)
    requires
        run_steps(c1, st, k) is Some,
    ensures
        run_steps(Cmd::Sequence(Box::new(c1), Box::new(c2)), st, k) == Some(
            (
                Cmd::Sequence(Box::new(run_steps(c1, st, k)->Some_0.0), Box::new(c2)),
                run_steps(c1, st, k)->Some_0.1,
            ),
        ),
    decreases k,
{
    if k > 0 {
        let (d1, st1) = cstep(c1, st)->Ok_0->Some_0;
        lemma_run_seq(d1, c2, st1, (k - 1) as nat);
    }
}

proof fn lemma_run_ass(x: String, e: Aexpr, st: State) -> (r: (nat, Aexpr))
    ensures
        run_steps(Cmd::Ass(x, Box::new(e)), st, r.0) == Some((Cmd::Ass(x, Box::new(r.1)), st)),
        match aeval(e, st.0) {
            Ok(z) => r.1 == Aexpr::Int(z),
            Err(v) => cstep(Cmd::Ass(x, Box::new(r.1)), st) == Err::<Option<(Cmd, State)>, Seq<char>>(v),
        },
    decreases asize(e),
{
    if e is Int {
        (0, e)
    } else {
        lemma_astep(e, st.0);
        match astep(e, st.0) {
            Ok(Some(d)) => {
                let (n, e2) = lemma_run_ass(x, d, st);
                assert(run_steps(Cmd::Ass(x, Box::new(e)), st, n + 1) == run_steps(Cmd::Ass(x, Box::new(d)), st, n));
                (n + 1, e2)
            },
            _ => (0, e),
        }
    }
}

proof fn lemma_run_print(e: Aexpr, st: State) -> (r: (nat, Aexpr))
    ensures
        run_steps(Cmd::Print(Box::new(e)), st, r.0) == Some((Cmd::Print(Box::new(r.1)), st)),
        match aeval(e, st.0) {
            Ok(z) => r.1 == Aexpr::Int(z),
            Err(v) => cstep(Cmd::Print(Box::new(r.1)), st) == Err::<Option<(Cmd, State)>, Seq<char>>(v),
        },
    decreases asize(e),
{
    if e is Int {
        (0, e)
    } else {
        lemma_astep(e, st.0);
        match astep(e, st.0) {
            Ok(Some(d)) => {
                let (n, e2) = lemma_run_print(d, st);
                assert(run_steps(Cmd::Print(Box::new(e)), st, n + 1) == run_steps(Cmd::Print(Box::new(d)), st, n));
                (n + 1, e2)
            },
            _ => (0, e),
        }
    }
}

proof fn lemma_run_if(b: Bexpr, c1: Cmd, c2: Cmd, st: State) -> (r: (nat, Bexpr))
    ensures
        run_steps(Cmd::If(Box::new(b), Box::new(c1), Box::new(c2)), st, r.0) == Some(
            (Cmd::If(Box::new(r.1), Box::new(c1), Box::new(c2)), st),
        ),
        match beval(b, st.0) {
            Ok(v) => r.1 == Bexpr::Bool(v),
            Err(x) => cstep(Cmd::If(Box::new(r.1), Box::new(c1), Box::new(c2)), st) == Err::<
                Option<(Cmd, State)>,
                Seq<char>,
            >(x),
        },
    decreases bsize(b),
{
    if b is Bool {
        (0, b)
    } else {
        lemma_bstep(b, st.0);
        match bstep(b, st.0) {
            Ok(Some(d)) => {
                let (n, b2) = lemma_run_if(d, c1, c2, st);
                assert(run_steps(Cmd::If(Box::new(b), Box::new(c1), Box::new(c2)), st, n + 1)
                    == run_steps(Cmd::If(Box::new(d), Box::new(c1), Box::new(c2)), st, n));
                (n + 1, b2)
            },
            _ => (0, b),
        }
    }
}

/// How a run of steps from `c` in `st` ends in the outcome `o` of big-step
/// evaluation: at `skip` in the final state when the run ends normally, or
/// in the state of the failure at a command whose next step fails on the
/// same variable.
pub open spec fn steps_reach(c: Cmd, st: State, n: nat, o: Outcome) -> bool {
    match o {
        Ok(st2) => run_steps(c, st, n) == Some((Cmd::Skip, st2)),
        Err((x, st2)) => run_steps(c, st, n) matches Some((d, st3)) && st3 == st2 && cstep(d, st3)
            == Err::<Option<(Cmd, State)>, Seq<char>>(x),
    }
}


proof fn lemma_steps_fuel(c: Cmd, st: State, f: nat) -> (n: nat)
    requires
        exec_cmd(c, st, f) is Some,
    ensures
        steps_reach(c, st, n, exec_cmd(c, st, f)->Some_0),
    decreases f, c,
{
    match c {
        Cmd::Skip => {
            assert(run_steps(c, st, 0) == Some((c, st)));
            0
        },
        Cmd::Ass(x, e) => {
            let (k, e2) = lemma_run_ass(x, *e, st);
            if aeval(*e, st.0) is Ok {
                let last = Cmd::Ass(x, Box::new(e2));
                let st2 = (st.0.insert(x@, e2->Int_0), st.1);
                assert(cstep(last, st)->Ok_0->Some_0 == (Cmd::Skip, st2));
                assert(run_steps(Cmd::Skip, st2, 0) == Some((Cmd::Skip, st2)));
                assert(run_steps(last, st, 1) == Some((Cmd::Skip, st2)));
                lemma_run_trans(c, st, k, 1);
                k + 1
            } else {
                k
            }
        },
        Cmd::Print(e) => {
            let (k, e2) = lemma_run_print(*e, st);
            if aeval(*e, st.0) is Ok {
                let last = Cmd::Print(Box::new(e2));
                let st2 = (st.0, st.1.push(e2->Int_0));
                assert(cstep(last, st)->Ok_0->Some_0 == (Cmd::Skip, st2));
                assert(run_steps(Cmd::Skip, st2, 0) == Some((Cmd::Skip, st2)));
                assert(run_steps(last, st, 1) == Some((Cmd::Skip, st2)));
                lemma_run_trans(c, st, k, 1);
                k + 1
            } else {
                k
            }
        },
        Cmd::Sequence(c1, c2) => {
            let n1 = lemma_steps_fuel(*c1, st, f);
            lemma_run_seq(*c1, *c2, st, n1);
            match exec_cmd(*c1, st, f)->Some_0 {
                Ok(st1) => {
                    let n2 = lemma_steps_fuel(*c2, st1, f);
                    let sk = Cmd::Sequence(Box::new(Cmd::Skip), c2);
                    assert(cstep(sk, st1)->Ok_0->Some_0 == (*c2, st1));
                    assert(run_steps(*c2, st1, 0) == Some((*c2, st1)));
                    assert(run_steps(sk, st1, 1) == Some((*c2, st1)));
                    lemma_run_trans(c, st, n1, 1);
                    lemma_run_trans(c, st, n1 + 1, n2);
                    n1 + 1 + n2
                },
                Err(_) => n1,
            }
        },
        Cmd::If(b, c1, c2) => {
            let (k, b2) = lemma_run_if(*b, *c1, *c2, st);
            match beval(*b, st.0) {
                Ok(v) => {
                    let taken = if v {
                        *c1
                    } else {
                        *c2
                    };
                    let n1 = lemma_steps_fuel(taken, st, f);
                    let chosen = Cmd::If(Box::new(b2), c1, c2);
                    assert(cstep(chosen, st)->Ok_0->Some_0 == (taken, st));
                    assert(run_steps(taken, st, 0) == Some((taken, st)));
                    assert(run_steps(chosen, st, 1) == Some((taken, st)));
                    lemma_run_trans(c, st, k, 1);
                    lemma_run_trans(c, st, k + 1, n1);
                    k + 1 + n1
                },
                Err(_) => k,
            }
        },
        Cmd::While(b, body) => {
            let w = Cmd::Sequence(body, Box::new(c));
            let unfolded = Cmd::If(b, Box::new(w), Box::new(Cmd::Skip));
            assert(cstep(c, st) == Ok::<Option<(Cmd, State)>, Seq<char>>(Some((unfolded, st))));
            assert(run_steps(unfolded, st, 0) == Some((unfolded, st)));
            assert(run_steps(c, st, 1) == Some((unfolded, st)));
            let (k, b2) = lemma_run_if(*b, w, Cmd::Skip, st);
            lemma_run_trans(c, st, 1, k);
            match beval(*b, st.0) {
                Ok(true) => {
                    let chosen = Cmd::If(Box::new(b2), Box::new(w), Box::new(Cmd::Skip));
                    assert(cstep(chosen, st)->Ok_0->Some_0 == (w, st));
                    assert(run_steps(w, st, 0) == Some((w, st)));
                    assert(run_steps(chosen, st, 1) == Some((w, st)));
                    lemma_run_trans(c, st, 1 + k, 1);
                    assert(run_steps(c, st, 1 + k + 1) == Some((w, st)));
                    let nb = lemma_steps_fuel(*body, st, f);
                    lemma_run_seq(*body, c, st, nb);
                    lemma_run_trans(c, st, 1 + k + 1, nb);
                    match exec_cmd(*body, st, f)->Some_0 {
                        Ok(st1) => {
                            let nw = lemma_steps_fuel(c, st1, (f - 1) as nat);
                            let sk = Cmd::Sequence(Box::new(Cmd::Skip), Box::new(c));
                            assert(cstep(sk, st1)->Ok_0->Some_0 == (c, st1));
                            assert(run_steps(c, st1, 0) == Some((c, st1)));
                            assert(run_steps(sk, st1, 1) == Some((c, st1)));
                            lemma_run_trans(c, st, 1 + k + 1 + nb, 1);
                            lemma_run_trans(c, st, 1 + k + 1 + nb + 1, nw);
                            1 + k + 1 + nb + 1 + nw
                        },
                        Err(_) => 1 + k + 1 + nb,
                    }
                },
                Ok(false) => {
                    let chosen = Cmd::If(Box::new(b2), Box::new(w), Box::new(Cmd::Skip));
                    assert(cstep(chosen, st)->Ok_0->Some_0 == (Cmd::Skip, st));
                    assert(run_steps(Cmd::Skip, st, 0) == Some((Cmd::Skip, st)));
                    assert(run_steps(chosen, st, 1) == Some((Cmd::Skip, st)));
                    lemma_run_trans(c, st, 1 + k, 1);
                    1 + k + 1
                },
                Err(_) => 1 + k,
            }
        },
    }
}

/// Small steps agree with big-step evaluation. Wherever the run of `c`
/// from `st` ends, some number `n` of steps leads to the same end: to `skip`
/// with the same store and printed values when it ends normally, and, when
/// it fails on an unbound variable, to the same store and printed values at
/// a command whose next step fails on that variable.
pub proof fn lemma_steps_agree(c: Cmd, st: State) -> (n: nat)
    requires
        terminates(c, st),
    ensures
        steps_reach(c, st, n, outcome(c, st)),
{
    let f = choose|f: nat| (#[trigger] exec_cmd(c, st, f)) is Some;
    lemma_outcome(c, st, f);
    lemma_steps_fuel(c, st, f)
}

/// Where a run of steps reaches `skip`, or a command whose next step
/// fails, it has no longer run of steps.
proof fn lemma_run_stops(c: Cmd, st: State, m: nat, n: nat)
    requires
        run_steps(c, st, m) matches Some((d, st1)) && (d is Skip || cstep(d, st1) is Err),
        run_steps(c, st, n) is Some,
    ensures
        n <= m,
    decreases m,
{
    if n > m {
        if m == 0 {
            assert(cstep(c, st) matches Ok(Some(_)));
        } else {
            let (c1, st1) = cstep(c, st)->Ok_0->Some_0;
            lemma_run_stops(c1, st1, (m - 1) as nat, (n - 1) as nat);
        }
    }
}

/// Stepping to the end agrees with evaluation. Where the run of `c` from
/// `st` ends normally, any run of steps that stops (at `skip`, or at a
/// command whose step fails) stops at `skip`, in the final state of that run.
pub proof fn lemma_normal_form(c: Cmd, st: State, m: nat)
    requires
        terminates(c, st),
        outcome(c, st) is Ok,
        run_steps(c, st, m) matches Some((d, st1)) && (d is Skip || cstep(d, st1) is Err),
    ensures
        run_steps(c, st, m) == Some((Cmd::Skip, outcome(c, st)->Ok_0)),
{
    let n = lemma_steps_agree(c, st);
    lemma_run_stops(c, st, m, n);
    assert(run_steps(Cmd::Skip, outcome(c, st)->Ok_0, 0) is Some);
    lemma_run_stops(c, st, n, m);
}

impl Cmd {
    /// Steps the command until no reduction is left, a step fails, or
    /// `budget` steps have been made. Returns whether it reached a form with
    /// no reduction left. The command and state reached are those of the
    /// steps made, and a failure is that of the next step.
    pub fn normalize(&mut self, s: &mut Store, out: &mut Vec<i32>, budget: u64) -> (r: Result<bool, Error>)
        ensures
            exists|n: nat|
                {
                    &&& n <= budget
                    &&& #[trigger] run_steps(*old(self), (old(s)@, old(out)@), n) == Some(
                        (*final(self), (final(s)@, final(out)@)),
                    )
                    &&& match r {
                        Ok(true) => cstep(*final(self), (final(s)@, final(out)@)) is Ok && cstep(
                            *final(self),
                            (final(s)@, final(out)@),
                        )->Ok_0 is None,
                        Ok(false) => n == budget,
                        Err(e) => cstep(*final(self), (final(s)@, final(out)@)) == Err::<
                            Option<(Cmd, State)>,
                            Seq<char>,
                        >(e.name()),
                    }
                },
    {
        let ghost c0 = *self;
        let ghost st0 = (s@, out@);
        let mut k: u64 = 0;
        assert(run_steps(c0, st0, 0) == Some((c0, st0)));
        while k < budget
            invariant
                c0 == *old(self),
                st0 == (old(s)@, old(out)@),
                k <= budget,
                run_steps(c0, st0, k as nat) == Some((*self, (s@, out@))),
            decreases budget - k,
        {
            let ghost c1 = *self;
            let ghost st1 = (s@, out@);
            match self.step(s, out) {
                Ok(true) => {
                    proof {
                        assert(run_steps(*self, (s@, out@), 0) == Some((*self, (s@, out@))));
                        assert(run_steps(c1, st1, 1) == Some((*self, (s@, out@))));
                        lemma_run_trans(c0, st0, k as nat, 1);
                    }
                    k = k + 1;
                },
                Ok(false) => {
                    assert(run_steps(c0, st0, k as nat) == Some((*self, (s@, out@))));
                    return Ok(true);
                },
                Err(e) => {
                    assert(run_steps(c0, st0, k as nat) == Some((*self, (s@, out@))));
                    return Err(e);
                },
            }
        }
        assert(run_steps(c0, st0, k as nat) == Some((*self, (s@, out@))));
        Ok(false)
    }
}

} // verus!
