use vstd::prelude::*;
use crate::error::Error;
use crate::eval::State;
use crate::op::{aop_value, bop_value, cop_value};
use crate::store::Store;
use crate::syntax::{Aexpr, Bexpr, Cmd};

verus! {

/// One small step of an arithmetic expression: `Ok(None)` for a literal,
/// `Ok(Some(e2))` for the reduced expression, `Err(x)` when the step reads
/// the unbound variable `x`. Operators reduce once both operands are
/// literals; before that the leftmost non-literal operand steps.
pub open spec fn astep(e: Aexpr, m: Map<Seq<char>, i32>) -> Result<Option<Aexpr>, Seq<char>>
    decreases e,
{
    match e {
        Aexpr::Int(_) => Ok(None),
        Aexpr::Var(x) => if m.contains_key(x@) {
            Ok(Some(Aexpr::Int(m[x@])))
        } else {
            Err(x@)
        },
        Aexpr::Op(o, e1, e2) => if (*e1) is Int && (*e2) is Int {
            Ok(Some(Aexpr::Int(aop_value(o, (*e1)->Int_0, (*e2)->Int_0))))
        } else if (*e1) is Int {
            match astep(*e2, m) {
                Ok(Some(d2)) => Ok(Some(Aexpr::Op(o, e1, Box::new(d2)))),
                r => r,
            }
        } else {
            match astep(*e1, m) {
                Ok(Some(d1)) => Ok(Some(Aexpr::Op(o, Box::new(d1), e2))),
                r => r,
            }
        },
    }
}

/// One small step of a boolean expression, in the same discipline.
pub open spec fn bstep(b: Bexpr, m: Map<Seq<char>, i32>) -> Result<Option<Bexpr>, Seq<char>>
    decreases b,
{
    match b {
        Bexpr::Bool(_) => Ok(None),
        Bexpr::Not(b1) => if (*b1) is Bool {
            Ok(Some(Bexpr::Bool(!(*b1)->Bool_0)))
        } else {
            match bstep(*b1, m) {
                Ok(Some(d1)) => Ok(Some(Bexpr::Not(Box::new(d1)))),
                r => r,
            }
        },
        Bexpr::Cop(o, e1, e2) => if (*e1) is Int && (*e2) is Int {
            Ok(Some(Bexpr::Bool(cop_value(o, (*e1)->Int_0, (*e2)->Int_0))))
        } else if (*e1) is Int {
            match astep(*e2, m) {
                Ok(Some(d2)) => Ok(Some(Bexpr::Cop(o, e1, Box::new(d2)))),
                Ok(None) => Ok(None),
                Err(x) => Err(x),
            }
        } else {
            match astep(*e1, m) {
                Ok(Some(d1)) => Ok(Some(Bexpr::Cop(o, Box::new(d1), e2))),
                Ok(None) => Ok(None),
                Err(x) => Err(x),
            }
        },
        Bexpr::Bop(o, b1, b2) => if (*b1) is Bool && (*b2) is Bool {
            Ok(Some(Bexpr::Bool(bop_value(o, (*b1)->Bool_0, (*b2)->Bool_0))))
        } else if (*b1) is Bool {
            match bstep(*b2, m) {
                Ok(Some(d2)) => Ok(Some(Bexpr::Bop(o, b1, Box::new(d2)))),
                r => r,
            }
        } else {
            match bstep(*b1, m) {
                Ok(Some(d1)) => Ok(Some(Bexpr::Bop(o, Box::new(d1), b2))),
                r => r,
            }
        },
    }
}

/// One small step of a command in state `st`: `Ok(None)` for `skip`,
/// `Ok(Some((c2, st2)))` for the next command and state, `Err(x)` when the
/// step reads the unbound variable `x`. A loop unfolds in one step into a
/// conditional over its body followed by the loop itself.
pub open spec fn cstep(c: Cmd, st: State) -> Result<Option<(Cmd, State)>, Seq<char>>
    decreases c,
{
    match c {
        Cmd::Skip => Ok(None),
        Cmd::Ass(x, e) => if (*e) is Int {
            Ok(Some((Cmd::Skip, (st.0.insert(x@, (*e)->Int_0), st.1))))
        } else {
            match astep(*e, st.0) {
                Ok(Some(d)) => Ok(Some((Cmd::Ass(x, Box::new(d)), st))),
                Ok(None) => Ok(None),
                Err(v) => Err(v),
            }
        },
        Cmd::Print(e) => if (*e) is Int {
            Ok(Some((Cmd::Skip, (st.0, st.1.push((*e)->Int_0)))))
        } else {
            match astep(*e, st.0) {
                Ok(Some(d)) => Ok(Some((Cmd::Print(Box::new(d)), st))),
                Ok(None) => Ok(None),
                Err(v) => Err(v),
            }
        },
        Cmd::Sequence(c1, c2) => if (*c1) is Skip {
            Ok(Some((*c2, st)))
        } else {
            match cstep(*c1, st) {
                Ok(Some((d1, st1))) => Ok(Some((Cmd::Sequence(Box::new(d1), c2), st1))),
                r => r,
            }
        },
        Cmd::If(b, c1, c2) => if (*b) is Bool {
            if (*b)->Bool_0 {
                Ok(Some((*c1, st)))
            } else {
                Ok(Some((*c2, st)))
            }
        } else {
            match bstep(*b, st.0) {
                Ok(Some(d)) => Ok(Some((Cmd::If(Box::new(d), c1, c2), st))),
                Ok(None) => Ok(None),
                Err(v) => Err(v),
            }
        },
        Cmd::While(b, body) => Ok(
            Some(
                (
                    Cmd::If(
                        b,
                        Box::new(Cmd::Sequence(body, Box::new(Cmd::While(b, body)))),
                        Box::new(Cmd::Skip),
                    ),
                    st,
                ),
            ),
        ),
    }
}

/// An expression step as the executable stepper reports it: the term `t1`
/// after the call, and the result `r`, for the step `sr` from `t0`.
pub open spec fn reported<T>(sr: Result<Option<T>, Seq<char>>, t0: T, t1: T, r: Result<bool, Error>) -> bool {
    match sr {
        Ok(None) => t1 == t0 && r == Ok::<bool, Error>(false),
        Ok(Some(t)) => t1 == t && r == Ok::<bool, Error>(true),
        Err(x) => t1 == t0 && (r matches Err(e) && e.name() == x),
    }
}

impl Aexpr {
    fn reduce(self, s: &Store) -> (res: (Aexpr, Result<bool, Error>))
        ensures
            reported(astep(self, s@), self, res.0, res.1),
        decreases self,
    {
        match self {
            Aexpr::Int(z) => (Aexpr::Int(z), Ok(false)),
            Aexpr::Var(x) => match s.get(x.as_str()) {
                Some(z) => (Aexpr::Int(z), Ok(true)),
                None => {
                    let err = Error::UnboundVariable(x.clone());
                    (Aexpr::Var(x), Err(err))
                },
            },
            Aexpr::Op(o, e1, e2) => {
                if let (Aexpr::Int(z1), Aexpr::Int(z2)) = (&*e1, &*e2) {
                    return (Aexpr::Int(o.eval(*z1, *z2)), Ok(true));
                }
                if matches!(*e1, Aexpr::Int(_)) {
                    let (d2, r) = (*e2).reduce(s);
                    (Aexpr::Op(o, e1, Box::new(d2)), r)
                } else {
                    let (d1, r) = (*e1).reduce(s);
                    (Aexpr::Op(o, Box::new(d1), e2), r)
                }
            },
        }
    }

    /// Performs at most one reduction in place and reports whether one
    /// happened; on an error the expression is left as it was.
    pub fn step(&mut self, s: &Store) -> (r: Result<bool, Error>)
        ensures
            reported(astep(*old(self), s@), *old(self), *final(self), r),
    {
        let mut e = Aexpr::Int(0);
        std::mem::swap(self, &mut e);
        let (d, r) = e.reduce(s);
        *self = d;
        r
    }
}

impl Bexpr {
    fn reduce(self, s: &Store) -> (res: (Bexpr, Result<bool, Error>))
        ensures
            reported(bstep(self, s@), self, res.0, res.1),
        decreases self,
    {
        match self {
            Bexpr::Bool(v) => (Bexpr::Bool(v), Ok(false)),
            Bexpr::Not(b1) => {
                if let Bexpr::Bool(v) = *b1 {
                    return (Bexpr::Bool(!v), Ok(true));
                }
                let (d1, r) = (*b1).reduce(s);
                (Bexpr::Not(Box::new(d1)), r)
            },
            Bexpr::Cop(o, e1, e2) => {
                if let (Aexpr::Int(z1), Aexpr::Int(z2)) = (&*e1, &*e2) {
                    return (Bexpr::Bool(o.eval(*z1, *z2)), Ok(true));
                }
                if matches!(*e1, Aexpr::Int(_)) {
                    let (d2, r) = (*e2).reduce(s);
                    (Bexpr::Cop(o, e1, Box::new(d2)), r)
                } else {
                    let (d1, r) = (*e1).reduce(s);
                    (Bexpr::Cop(o, Box::new(d1), e2), r)
                }
            },
            Bexpr::Bop(o, b1, b2) => {
                if let (Bexpr::Bool(v1), Bexpr::Bool(v2)) = (&*b1, &*b2) {
                    return (Bexpr::Bool(o.eval(*v1, *v2)), Ok(true));
                }
                if matches!(*b1, Bexpr::Bool(_)) {
                    let (d2, r) = (*b2).reduce(s);
                    (Bexpr::Bop(o, b1, Box::new(d2)), r)
                } else {
                    let (d1, r) = (*b1).reduce(s);
                    (Bexpr::Bop(o, Box::new(d1), b2), r)
                }
            },
        }
    }

    /// Performs at most one reduction in place and reports whether one
    /// happened; on an error the expression is left as it was.
    pub fn step(&mut self, s: &Store) -> (r: Result<bool, Error>)
        ensures
            reported(bstep(*old(self), s@), *old(self), *final(self), r),
    {
        let mut b = Bexpr::Bool(false);
        std::mem::swap(self, &mut b);
        let (d, r) = b.reduce(s);
        *self = d;
        r
    }
}

/// A command step as the executable stepper reports it: command `c1` and
/// state `st1` after the call, and the result `r`, for the step from
/// `c0` in `st0`.
pub open spec fn reported_cmd(c0: Cmd, st0: State, c1: Cmd, st1: State, r: Result<bool, Error>) -> bool {
    match cstep(c0, st0) {
        Ok(None) => c1 == c0 && st1 == st0 && r == Ok::<bool, Error>(false),
        Ok(Some((c, st))) => c1 == c && st1 == st && r == Ok::<bool, Error>(true),
        Err(x) => c1 == c0 && st1 == st0 && (r matches Err(e) && e.name() == x),
    }
}

impl Cmd {
    fn reduce(self, s: &mut Store, out: &mut Vec<i32>) -> (res: (Cmd, Result<bool, Error>))
        ensures
            reported_cmd(self, (old(s)@, old(out)@), res.0, (final(s)@, final(out)@), res.1),
        decreases self,
    {
        match self {
            Cmd::Skip => (Cmd::Skip, Ok(false)),
            Cmd::Ass(x, e) => {
                if let Aexpr::Int(z) = *e {
                    s.insert(x.as_str(), z);
                    return (Cmd::Skip, Ok(true));
                }
                let (d, r) = (*e).reduce(s);
                (Cmd::Ass(x, Box::new(d)), r)
            },
            Cmd::Print(e) => {
                if let Aexpr::Int(z) = *e {
                    out.push(z);
                    return (Cmd::Skip, Ok(true));
                }
                let (d, r) = (*e).reduce(s);
                (Cmd::Print(Box::new(d)), r)
            },
            Cmd::Sequence(c1, c2) => {
                if matches!(*c1, Cmd::Skip) {
                    return (*c2, Ok(true));
                }
                let (d1, r) = (*c1).reduce(s, out);
                (Cmd::Sequence(Box::new(d1), c2), r)
            },
            Cmd::If(b, c1, c2) => {
                if let Bexpr::Bool(v) = *b {
                    if v {
                        return (*c1, Ok(true));
                    } else {
                        return (*c2, Ok(true));
                    }
                }
                let (d, r) = (*b).reduce(s);
                (Cmd::If(Box::new(d), c1, c2), r)
            },
            Cmd::While(b, body) => {
                let unfolded = Cmd::If(
                    Box::new(b.copy()),
                    Box::new(Cmd::Sequence(Box::new(body.copy()), Box::new(Cmd::While(b, body)))),
                    Box::new(Cmd::Skip),
                );
                (unfolded, Ok(true))
            },
        }
    }

    /// Performs at most one reduction in place and reports whether one
    /// happened. An assignment or a print takes effect in the step that
    /// consumes its literal; on an error nothing changes.
    pub fn step(&mut self, s: &mut Store, out: &mut Vec<i32>) -> (r: Result<bool, Error>)
        ensures
            reported_cmd(*old(self), (old(s)@, old(out)@), *final(self), (final(s)@, final(out)@), r),
    {
        let mut c = Cmd::Skip;
        std::mem::swap(self, &mut c);
        let (d, r) = c.reduce(s, out);
        *self = d;
        r
    }
}

} // verus!
