use vstd::prelude::*;
use crate::syntax::{Aop, Bop, Cop};

verus! {

/// The value of an arithmetic operator on two 32-bit integers; the result
/// wraps around on overflow, so evaluation never fails arithmetically.
pub open spec fn aop_value(o: Aop, z1: i32, z2: i32) -> i32 {
    match o {
        Aop::Add => z1.wrapping_add(z2),
        Aop::Sub => z1.wrapping_sub(z2),
        Aop::Mul => z1.wrapping_mul(z2),
    }
}

/// The value of a comparison.
pub open spec fn cop_value(o: Cop, z1: i32, z2: i32) -> bool {
    match o {
        Cop::Eq => z1 == z2,
        Cop::Lt => z1 < z2,
    }
}

/// The value of a boolean combinator.
pub open spec fn bop_value(o: Bop, b1: bool, b2: bool) -> bool {
    match o {
        Bop::And => b1 && b2,
        Bop::Or => b1 || b2,
    }
}

impl Aop {
    pub fn eval(&self, z1: i32, z2: i32) -> (r: i32)
        ensures
            r == aop_value(*self, z1, z2),
    {
        match self {
            Aop::Add => z1.wrapping_add(z2),
            Aop::Sub => z1.wrapping_sub(z2),
            Aop::Mul => z1.wrapping_mul(z2),
        }
    }
}

impl Cop {
    pub fn eval(&self, z1: i32, z2: i32) -> (r: bool)
        ensures
            r == cop_value(*self, z1, z2),
    {
        match self {
            Cop::Eq => z1 == z2,
            Cop::Lt => z1 < z2,
        }
    }
}

impl Bop {
    pub fn eval(&self, b1: bool, b2: bool) -> (r: bool)
        ensures
            r == bop_value(*self, b1, b2),
    {
        match self {
            Bop::And => b1 && b2,
            Bop::Or => b1 || b2,
        }
    }
}

} // verus!
