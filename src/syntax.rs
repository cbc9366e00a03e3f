use vstd::prelude::*;

verus! {

/// Arithmetic operators.
#[derive(Clone, Copy, Debug, PartialEq, Eq, Structural)]
pub enum Aop {
    Add,
    Sub,
    Mul,
}

/// Arithmetic expressions.
#[derive(Debug)]
pub enum Aexpr {
    Int(i32),
    Var(String),
    Op(Aop, Box<Aexpr>, Box<Aexpr>),
}

/// Comparison operators.
#[derive(Clone, Copy, Debug, PartialEq, Eq, Structural)]
pub enum Cop {
    Eq,
    Lt,
}

/// Boolean operators.
#[derive(Clone, Copy, Debug, PartialEq, Eq, Structural)]
pub enum Bop {
    And,
    Or,
}

/// Boolean expressions.
#[derive(Debug)]
pub enum Bexpr {
    Bool(bool),
    Not(Box<Bexpr>),
    Cop(Cop, Box<Aexpr>, Box<Aexpr>),
    Bop(Bop, Box<Bexpr>, Box<Bexpr>),
}

/// Commands.
#[derive(Debug)]
pub enum Cmd {
    Skip,
    Ass(String, Box<Aexpr>),
    Print(Box<Aexpr>),
    Sequence(Box<Cmd>, Box<Cmd>),
    If(Box<Bexpr>, Box<Cmd>, Box<Cmd>),
    While(Box<Bexpr>, Box<Cmd>),
}

/// Tree equality of arithmetic expressions; names compare by their characters.
pub open spec fn same_a(a: Aexpr, b: Aexpr) -> bool
    decreases a,
{
    match (a, b) {
        (Aexpr::Int(x), Aexpr::Int(y)) => x == y,
        (Aexpr::Var(x), Aexpr::Var(y)) => x@ == y@,
        (Aexpr::Op(o, a1, a2), Aexpr::Op(p, b1, b2)) => o == p && same_a(*a1, *b1) && same_a(*a2, *b2),
        _ => false,
    }
}

/// Tree equality of boolean expressions.
pub open spec fn same_b(a: Bexpr, b: Bexpr) -> bool
    decreases a,
{
    match (a, b) {
        (Bexpr::Bool(x), Bexpr::Bool(y)) => x == y,
        (Bexpr::Not(a1), Bexpr::Not(b1)) => same_b(*a1, *b1),
        (Bexpr::Cop(o, a1, a2), Bexpr::Cop(p, b1, b2)) => o == p && same_a(*a1, *b1) && same_a(*a2, *b2),
        (Bexpr::Bop(o, a1, a2), Bexpr::Bop(p, b1, b2)) => o == p && same_b(*a1, *b1) && same_b(*a2, *b2),
        _ => false,
    }
}

/// Tree equality of commands.
pub open spec fn same_c(a: Cmd, b: Cmd) -> bool
    decreases a,
{
    match (a, b) {
        (Cmd::Skip, Cmd::Skip) => true,
        (Cmd::Ass(x, a1), Cmd::Ass(y, b1)) => x@ == y@ && same_a(*a1, *b1),
        (Cmd::Print(a1), Cmd::Print(b1)) => same_a(*a1, *b1),
        (Cmd::Sequence(a1, a2), Cmd::Sequence(b1, b2)) => same_c(*a1, *b1) && same_c(*a2, *b2),
        (Cmd::If(g, a1, a2), Cmd::If(h, b1, b2)) => same_b(*g, *h) && same_c(*a1, *b1) && same_c(*a2, *b2),
        (Cmd::While(g, a1), Cmd::While(h, b1)) => same_b(*g, *h) && same_c(*a1, *b1),
        _ => false,
    }
}

impl Aexpr {
    /// Tree equality.
    pub fn same(&self, o: &Aexpr) -> (r: bool)
        ensures
            r == same_a(*self, *o),
        decreases self,
    {
        match (self, o) {
            (Aexpr::Int(x), Aexpr::Int(y)) => *x == *y,
            (Aexpr::Var(x), Aexpr::Var(y)) => *x == *y,
            (Aexpr::Op(p, a1, a2), Aexpr::Op(q, b1, b2)) => *p == *q && a1.same(b1) && a2.same(b2),
            _ => false,
        }
    }
}

impl Bexpr {
    /// Tree equality.
    pub fn same(&self, o: &Bexpr) -> (r: bool)
        ensures
            r == same_b(*self, *o),
        decreases self,
    {
        match (self, o) {
            (Bexpr::Bool(x), Bexpr::Bool(y)) => *x == *y,
            (Bexpr::Not(a1), Bexpr::Not(b1)) => a1.same(b1),
            (Bexpr::Cop(p, a1, a2), Bexpr::Cop(q, b1, b2)) => *p == *q && a1.same(b1) && a2.same(b2),
            (Bexpr::Bop(p, a1, a2), Bexpr::Bop(q, b1, b2)) => *p == *q && a1.same(b1) && a2.same(b2),
            _ => false,
        }
    }
}

impl Cmd {
    /// Tree equality.
    pub fn same(&self, o: &Cmd) -> (r: bool)
        ensures
            r == same_c(*self, *o),
        decreases self,
    {
        match (self, o) {
            (Cmd::Skip, Cmd::Skip) => true,
            (Cmd::Ass(x, a1), Cmd::Ass(y, b1)) => *x == *y && a1.same(b1),
            (Cmd::Print(a1), Cmd::Print(b1)) => a1.same(b1),
            (Cmd::Sequence(a1, a2), Cmd::Sequence(b1, b2)) => a1.same(b1) && a2.same(b2),
            (Cmd::If(g, a1, a2), Cmd::If(h, b1, b2)) => g.same(h) && a1.same(b1) && a2.same(b2),
            (Cmd::While(g, a1), Cmd::While(h, b1)) => g.same(h) && a1.same(b1),
            _ => false,
        }
    }
}

impl Aexpr {
    /// A copy of the whole tree.
    pub fn copy(&self) -> (r: Aexpr)
        ensures
            r == *self,
        decreases self,
    {
        match self {
            Aexpr::Int(z) => Aexpr::Int(*z),
            Aexpr::Var(x) => Aexpr::Var(x.clone()),
            Aexpr::Op(o, e1, e2) => Aexpr::Op(*o, Box::new(e1.copy()), Box::new(e2.copy())),
        }
    }
}

impl Bexpr {
    /// A copy of the whole tree.
    pub fn copy(&self) -> (r: Bexpr)
        ensures
            r == *self,
        decreases self,
    {
        match self {
            Bexpr::Bool(b) => Bexpr::Bool(*b),
            Bexpr::Not(e) => Bexpr::Not(Box::new(e.copy())),
            Bexpr::Cop(o, e1, e2) => Bexpr::Cop(*o, Box::new(e1.copy()), Box::new(e2.copy())),
            Bexpr::Bop(o, e1, e2) => Bexpr::Bop(*o, Box::new(e1.copy()), Box::new(e2.copy())),
        }
    }
}

impl Cmd {
    /// A copy of the whole tree.
    pub fn copy(&self) -> (r: Cmd)
        ensures
            r == *self,
        decreases self,
    {
        match self {
            Cmd::Skip => Cmd::Skip,
            Cmd::Ass(x, e) => Cmd::Ass(x.clone(), Box::new(e.copy())),
            Cmd::Print(e) => Cmd::Print(Box::new(e.copy())),
            Cmd::Sequence(c1, c2) => Cmd::Sequence(Box::new(c1.copy()), Box::new(c2.copy())),
            Cmd::If(b, c1, c2) => Cmd::If(Box::new(b.copy()), Box::new(c1.copy()), Box::new(c2.copy())),
            Cmd::While(b, c) => Cmd::While(Box::new(b.copy()), Box::new(c.copy())),
        }
    }
}

impl Clone for Aexpr {
    fn clone(&self) -> Aexpr {
        self.copy()
    }
}

impl Clone for Bexpr {
    fn clone(&self) -> Bexpr {
        self.copy()
    }
}

impl Clone for Cmd {
    fn clone(&self) -> Cmd {
        self.copy()
    }
}

impl PartialEq for Aexpr {
    fn eq(&self, o: &Aexpr) -> (r: bool) {
        self.same(o)
    }
}

impl vstd::std_specs::cmp::PartialEqSpecImpl for Aexpr {
    open spec fn obeys_eq_spec() -> bool {
        true
    }

    open spec fn eq_spec(&self, o: &Aexpr) -> bool {
        same_a(*self, *o)
    }
}

impl PartialEq for Bexpr {
    fn eq(&self, o: &Bexpr) -> (r: bool) {
        self.same(o)
    }
}

impl vstd::std_specs::cmp::PartialEqSpecImpl for Bexpr {
    open spec fn obeys_eq_spec() -> bool {
        true
    }

    open spec fn eq_spec(&self, o: &Bexpr) -> bool {
        same_b(*self, *o)
    }
}

impl PartialEq for Cmd {
    fn eq(&self, o: &Cmd) -> (r: bool) {
        self.same(o)
    }
}

impl vstd::std_specs::cmp::PartialEqSpecImpl for Cmd {
    open spec fn obeys_eq_spec() -> bool {
        true
    }

    open spec fn eq_spec(&self, o: &Cmd) -> bool {
        same_c(*self, *o)
    }
}

} // verus!
