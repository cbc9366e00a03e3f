use vstd::prelude::*;
use crate::error::Error;
use crate::op::{aop_value, bop_value, cop_value};
use crate::store::Store;
use crate::syntax::{Aexpr, Bexpr, Cmd};

verus! {

/// What a run can observe: the store, and the values printed so far in order.
pub type State = (Map<Seq<char>, i32>, Seq<i32>);

/// How a run of a command ends: normally, or on the first unbound variable,
/// with the state reached at that point (effects already made are kept).
pub type Outcome = Result<State, (Seq<char>, State)>;

/// Big-step value of an arithmetic expression: `Err(x)` when it reads the
/// unbound variable `x`; operands are evaluated left to right.
pub open spec fn aeval(e: Aexpr, m: Map<Seq<char>, i32>) -> Result<i32, Seq<char>>
    decreases e,
{
    match e {
        Aexpr::Int(z) => Ok(z),
        Aexpr::Var(x) => if m.contains_key(x@) {
            Ok(m[x@])
        } else {
            Err(x@)
        },
        Aexpr::Op(o, e1, e2) => match aeval(*e1, m) {
            Err(x) => Err(x),
            Ok(z1) => match aeval(*e2, m) {
                Err(x) => Err(x),
                Ok(z2) => Ok(aop_value(o, z1, z2)),
            },
        },
    }
}

/// Big-step value of a boolean expression. Both operands of `and` and `or`
/// are always evaluated, left first.
pub open spec fn beval(b: Bexpr, m: Map<Seq<char>, i32>) -> Result<bool, Seq<char>>
    decreases b,
{
    match b {
        Bexpr::Bool(v) => Ok(v),
        Bexpr::Not(b1) => match beval(*b1, m) {
            Err(x) => Err(x),
            Ok(v) => Ok(!v),
        },
        Bexpr::Cop(o, e1, e2) => match aeval(*e1, m) {
            Err(x) => Err(x),
            Ok(z1) => match aeval(*e2, m) {
                Err(x) => Err(x),
                Ok(z2) => Ok(cop_value(o, z1, z2)),
            },
        },
        Bexpr::Bop(o, b1, b2) => match beval(*b1, m) {
            Err(x) => Err(x),
            Ok(v1) => match beval(*b2, m) {
                Err(x) => Err(x),
                Ok(v2) => Ok(bop_value(o, v1, v2)),
            },
        },
    }
}

/// Big-step run of a command from state `st`, allowing at most `fuel`
/// further iterations of any loop; `None` when that is not enough.
pub open spec fn exec_cmd(c: Cmd, st: State, fuel: nat) -> Option<Outcome>
    decreases fuel, c,
{
    match c {
        Cmd::Skip => Some(Ok(st)),
        Cmd::Ass(x, e) => match aeval(*e, st.0) {
            Ok(z) => Some(Ok((st.0.insert(x@, z), st.1))),
            Err(v) => Some(Err((v, st))),
        },
        Cmd::Print(e) => match aeval(*e, st.0) {
            Ok(z) => Some(Ok((st.0, st.1.push(z)))),
            Err(v) => Some(Err((v, st))),
        },
        Cmd::Sequence(c1, c2) => match exec_cmd(*c1, st, fuel) {
            Some(Ok(st1)) => exec_cmd(*c2, st1, fuel),
            r => r,
        },
        Cmd::If(b, c1, c2) => match beval(*b, st.0) {
            Ok(true) => exec_cmd(*c1, st, fuel),
            Ok(false) => exec_cmd(*c2, st, fuel),
            Err(v) => Some(Err((v, st))),
        },
        Cmd::While(b, body) => match beval(*b, st.0) {
            Ok(true) => if fuel == 0 {
                None
            } else {
                match exec_cmd(*body, st, fuel) {
                    Some(Ok(st1)) => exec_cmd(c, st1, (fuel - 1) as nat),
                    r => r,
                }
            },
            Ok(false) => Some(Ok(st)),
            Err(v) => Some(Err((v, st))),
        },
    }
}

/// The run of `c` from `st` ends.
pub open spec fn terminates(c: Cmd, st: State) -> bool {
    exists|f: nat| (#[trigger] exec_cmd(c, st, f)) is Some
}

/// How the run of `c` from `st` ends, where it does.
pub open spec fn outcome(c: Cmd, st: State) -> Outcome {
    let f = choose|f: nat| (#[trigger] exec_cmd(c, st, f)) is Some;
    match exec_cmd(c, st, f) {
        Some(r) => r,
        None => Ok(st),
    }
}

/// The observable end of a run, from the result and the final state.
pub open spec fn ended(r: Result<(), Error>, st: State) -> Outcome {
    match r {
        Ok(_) => Ok(st),
        Err(e) => Err((e.name(), st)),
    }
}

/// More fuel does not change a run that ended.
pub proof fn lemma_fuel_mono(c: Cmd, st: State, f1: nat, f2: nat)
    requires
        exec_cmd(c, st, f1) is Some,
        f1 <= f2,
    ensures
        exec_cmd(c, st, f2) == exec_cmd(c, st, f1),
    decreases f1, c,
{
    match c {
        Cmd::Sequence(c1, c2) => {
            lemma_fuel_mono(*c1, st, f1, f2);
            if let Some(Ok(st1)) = exec_cmd(*c1, st, f1) {
                lemma_fuel_mono(*c2, st1, f1, f2);
            }
        },
        Cmd::If(b, c1, c2) => {
            if beval(*b, st.0) == Ok::<bool, Seq<char>>(true) {
                lemma_fuel_mono(*c1, st, f1, f2);
            } else if beval(*b, st.0) == Ok::<bool, Seq<char>>(false) {
                lemma_fuel_mono(*c2, st, f1, f2);
            }
        },
        Cmd::While(b, body) => {
            if beval(*b, st.0) == Ok::<bool, Seq<char>>(true) {
                lemma_fuel_mono(*body, st, f1, f2);
                if let Some(Ok(st1)) = exec_cmd(*body, st, f1) {
                    lemma_fuel_mono(c, st1, (f1 - 1) as nat, (f2 - 1) as nat);
                }
            }
        },
        _ => {},
    }
}

/// A run that ends has one outcome, whatever fuel shows it.
pub proof fn lemma_outcome(c: Cmd, st: State, f: nat)
    requires
        exec_cmd(c, st, f) is Some,
    ensures
        terminates(c, st),
        exec_cmd(c, st, f) == Some(outcome(c, st)),
{
    let g = choose|g: nat| (#[trigger] exec_cmd(c, st, g)) is Some;
    if f <= g {
        lemma_fuel_mono(c, st, f, g);
    } else {
        lemma_fuel_mono(c, st, g, f);
    }
}

fn err_result<T>(e: Error) -> (r: Result<T, Error>)
    ensures
        r == Err::<T, Error>(e),
{
    Err(e)
}

impl Aexpr {
    /// Evaluates the expression in store `s`.
    pub fn eval(&self, s: &Store) -> (r: Result<i32, Error>)
        ensures
            match r {
                Ok(z) => aeval(*self, s@) == Ok::<i32, Seq<char>>(z),
                Err(e) => aeval(*self, s@) == Err::<i32, Seq<char>>(e.name()),
            },
        decreases self,
    {
        match self {
            Aexpr::Int(z) => Ok(*z),
            Aexpr::Var(x) => match s.get(x.as_str()) {
                Some(z) => Ok(z),
                None => Err(Error::UnboundVariable(x.clone())),
            },
            Aexpr::Op(o, e1, e2) => {
                let z1 = match e1.eval(s) {
                    Ok(z) => z,
                    Err(e) => return Err(e),
                };
                let z2 = match e2.eval(s) {
                    Ok(z) => z,
                    Err(e) => return Err(e),
                };
                Ok(o.eval(z1, z2))
            },
        }
    }
}

impl Bexpr {
    /// Evaluates the expression in store `s`, both operands of every
    /// operator included.
    pub fn eval(&self, s: &Store) -> (r: Result<bool, Error>)
        ensures
            match r {
                Ok(v) => beval(*self, s@) == Ok::<bool, Seq<char>>(v),
                Err(e) => beval(*self, s@) == Err::<bool, Seq<char>>(e.name()),
            },
        decreases self,
    {
        match self {
            Bexpr::Bool(v) => Ok(*v),
            Bexpr::Not(b) => match b.eval(s) {
                Ok(v) => Ok(!v),
                Err(e) => Err(e),
            },
            Bexpr::Cop(o, e1, e2) => {
                let z1 = match e1.eval(s) {
                    Ok(z) => z,
                    Err(e) => return Err(e),
                };
                let z2 = match e2.eval(s) {
                    Ok(z) => z,
                    Err(e) => return Err(e),
                };
                Ok(o.eval(z1, z2))
            },
            Bexpr::Bop(o, b1, b2) => {
                let v1 = match b1.eval(s) {
                    Ok(v) => v,
                    Err(e) => return Err(e),
                };
                let v2 = match b2.eval(s) {
                    Ok(v) => v,
                    Err(e) => return Err(e),
                };
                Ok(o.eval(v1, v2))
            },
        }
    }
}

impl Cmd {
    /// Runs the command to its end, updating the store in place and
    /// appending each printed value to `out`. On an error the run stops, and
    /// the assignments and prints already made are kept.
    pub fn eval(&self, s: &mut Store, out: &mut Vec<i32>) -> (r: Result<(), Error>)
        requires
            terminates(*self, (old(s)@, old(out)@)),
        ensures
            ended(r, (final(s)@, final(out)@)) == outcome(*self, (old(s)@, old(out)@)),
    {
        let ghost f = choose|f: nat| (#[trigger] exec_cmd(*self, (s@, out@), f)) is Some;
        proof {
            lemma_outcome(*self, (s@, out@), f);
        }
        self.run(s, out, Ghost(f))
    }

    #[verifier::loop_isolation(false)]
    fn run(&self, s: &mut Store, out: &mut Vec<i32>, Ghost(f): Ghost<nat>) -> (r: Result<(), Error>)
        requires
            exec_cmd(*self, (old(s)@, old(out)@), f) is Some,
        ensures
            exec_cmd(*self, (old(s)@, old(out)@), f) == Some(ended(r, (final(s)@, final(out)@))),
        decreases self,
    {
        match self {
            Cmd::Skip => Ok(()),
            Cmd::Ass(x, e) => match e.eval(s) {
                Ok(z) => {
                    s.insert(x.as_str(), z);
                    Ok(())
                },
                Err(e) => Err(e),
            },
            Cmd::Print(e) => match e.eval(s) {
                Ok(z) => {
                    out.push(z);
                    Ok(())
                },
                Err(e) => Err(e),
            },
            Cmd::Sequence(c1, c2) => match c1.run(s, out, Ghost(f)) {
                Ok(()) => c2.run(s, out, Ghost(f)),
                Err(e) => Err(e),
            },
            Cmd::If(b, c1, c2) => match b.eval(s) {
                Ok(true) => c1.run(s, out, Ghost(f)),
                Ok(false) => c2.run(s, out, Ghost(f)),
                Err(e) => Err(e),
            },
            Cmd::While(b, body) => {
                let ghost st0 = (s@, out@);
                let ghost mut g = f;
                loop
                    invariant
                        exec_cmd(*self, (s@, out@), g) == exec_cmd(*self, st0, f),
                        exec_cmd(*self, st0, f) is Some,
                    decreases g,
                {
                    match b.eval(s) {
                        Ok(true) => match body.run(s, out, Ghost(g)) {
                            Ok(()) => {
                                proof {
                                    g = (g - 1) as nat;
                                }
                            },
                            Err(e) => {
                                return Err(e);
                            },
                        },
                        Ok(false) => {
                            return Ok(());
                        },
                        Err(e) => {
                            return Err(e);
                        },
                    }
                }
            },
        }
    }
}

} // verus!
