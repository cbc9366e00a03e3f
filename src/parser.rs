use vstd::prelude::*;
use crate::lexer::{Spanned, Token};
use crate::syntax::{Aexpr, Aop, Bexpr, Bop, Cmd, Cop};

verus! {

/// Kinds of tokens, as a parse error lists the ones it expected.
#[derive(Clone, Copy, Debug, PartialEq, Eq, Structural)]
pub enum Kind {
    LBrace,
    RBrace,
    LParen,
    RParen,
    Semicolon,
    If,
    Else,
    While,
    Asgn,
    Print,
    Skip,
    Or,
    And,
    Eq,
    Lt,
    Add,
    Sub,
    Mul,
    Bool,
    Num,
    Var,
}

pub open spec fn kind_of(t: Token) -> Kind {
    match t {
        Token::LBRACE => Kind::LBrace,
        Token::RBRACE => Kind::RBrace,
        Token::LPAREN => Kind::LParen,
        Token::RPAREN => Kind::RParen,
        Token::SEMICOLON => Kind::Semicolon,
        Token::IF => Kind::If,
        Token::ELSE => Kind::Else,
        Token::WHILE => Kind::While,
        Token::ASGN => Kind::Asgn,
        Token::PRINT => Kind::Print,
        Token::SKIP => Kind::Skip,
        Token::OR => Kind::Or,
        Token::AND => Kind::And,
        Token::EQ => Kind::Eq,
        Token::LT => Kind::Lt,
        Token::ADD => Kind::Add,
        Token::SUB => Kind::Sub,
        Token::MUL => Kind::Mul,
        Token::BOOL(_) => Kind::Bool,
        Token::NUM(_) => Kind::Num,
        Token::VAR(_) => Kind::Var,
    }
}

impl Token {
    /// The kind of the token.
    pub fn kind(&self) -> (r: Kind)
        ensures
            r == kind_of(*self),
    {
        match self {
            Token::LBRACE => Kind::LBrace,
            Token::RBRACE => Kind::RBrace,
            Token::LPAREN => Kind::LParen,
            Token::RPAREN => Kind::RParen,
            Token::SEMICOLON => Kind::Semicolon,
            Token::IF => Kind::If,
            Token::ELSE => Kind::Else,
            Token::WHILE => Kind::While,
            Token::ASGN => Kind::Asgn,
            Token::PRINT => Kind::Print,
            Token::SKIP => Kind::Skip,
            Token::OR => Kind::Or,
            Token::AND => Kind::And,
            Token::EQ => Kind::Eq,
            Token::LT => Kind::Lt,
            Token::ADD => Kind::Add,
            Token::SUB => Kind::Sub,
            Token::MUL => Kind::Mul,
            Token::BOOL(_) => Kind::Bool,
            Token::NUM(_) => Kind::Num,
            Token::VAR(_) => Kind::Var,
        }
    }
}

/// Where a parse failed (an index into the tokens, or their number for the
/// end of input) and the kinds of token that could have stood there.
pub type Failure = (int, Seq<Kind>);

/// The result of parsing a phrase from some index: the tree and the index
/// just after the phrase.
pub type Parsed<T> = Result<(T, int), Failure>;

/// The token at `i` is of kind `k`.
pub open spec fn kind_at(ts: Seq<Spanned>, i: int, k: Kind) -> bool {
    0 <= i < ts.len() && kind_of(ts[i].1) == k
}

pub open spec fn operand_kinds() -> Seq<Kind> {
    seq![Kind::LParen, Kind::Num, Kind::Var]
}

pub open spec fn command_kinds() -> Seq<Kind> {
    seq![Kind::If, Kind::While, Kind::Var, Kind::Print, Kind::Skip]
}

pub open spec fn condition_kinds() -> Seq<Kind> {
    seq![Kind::Bool, Kind::LParen, Kind::Num, Kind::Var]
}

/// `factor := NUM | VAR | '(' aexpr ')'`
pub open spec fn p_factor(ts: Seq<Spanned>, i: int) -> Parsed<Aexpr>
    decreases ts.len() - i, 1int,
{
    if i < 0 || i >= ts.len() {
        Err((i, operand_kinds()))
    } else {
        match ts[i].1 {
            Token::NUM(z) => Ok((Aexpr::Int(z), i + 1)),
            Token::VAR(x) => Ok((Aexpr::Var(x), i + 1)),
            Token::LPAREN => match p_aexpr(ts, i + 1) {
                Ok((e, j)) => if kind_at(ts, j, Kind::RParen) {
                    Ok((e, j + 1))
                } else {
                    Err((j, seq![Kind::RParen, Kind::Add, Kind::Sub, Kind::Mul]))
                },
                Err(f) => Err(f),
            },
            _ => Err((i, operand_kinds())),
        }
    }
}

/// `term := factor ('*' factor)*`, grouped to the left.
pub open spec fn p_term(ts: Seq<Spanned>, i: int) -> Parsed<Aexpr>
    decreases ts.len() - i, 2int,
{
    match p_factor(ts, i) {
        Ok((e, j)) => if j <= i || j > ts.len() {
            Err((i, Seq::empty()))
        } else {
            p_term_rest(ts, e, j)
        },
        Err(f) => Err(f),
    }
}

pub open spec fn p_term_rest(ts: Seq<Spanned>, acc: Aexpr, j: int) -> Parsed<Aexpr>
    decreases ts.len() - j, 2int,
{
    if kind_at(ts, j, Kind::Mul) {
        match p_factor(ts, j + 1) {
            Ok((e, k)) => if k <= j || k > ts.len() {
                Err((j, Seq::empty()))
            } else {
                p_term_rest(ts, Aexpr::Op(Aop::Mul, Box::new(acc), Box::new(e)), k)
            },
            Err(f) => Err(f),
        }
    } else {
        Ok((acc, j))
    }
}

/// `aexpr := term (('+' | '-') term)*`, grouped to the left.
pub open spec fn p_aexpr(ts: Seq<Spanned>, i: int) -> Parsed<Aexpr>
    decreases ts.len() - i, 3int,
{
    match p_term(ts, i) {
        Ok((e, j)) => if j <= i || j > ts.len() {
            Err((i, Seq::empty()))
        } else {
            p_aexpr_rest(ts, e, j)
        },
        Err(f) => Err(f),
    }
}

pub open spec fn p_aexpr_rest(ts: Seq<Spanned>, acc: Aexpr, j: int) -> Parsed<Aexpr>
    decreases ts.len() - j, 3int,
{
    if kind_at(ts, j, Kind::Add) || kind_at(ts, j, Kind::Sub) {
        let o = if kind_at(ts, j, Kind::Add) {
            Aop::Add
        } else {
            Aop::Sub
        };
        match p_term(ts, j + 1) {
            Ok((e, k)) => if k <= j || k > ts.len() {
                Err((j, Seq::empty()))
            } else {
                p_aexpr_rest(ts, Aexpr::Op(o, Box::new(acc), Box::new(e)), k)
            },
            Err(f) => Err(f),
        }
    } else {
        Ok((acc, j))
    }
}

/// `comparison := aexpr ('=?' | '<?') aexpr`
pub open spec fn p_comparison(ts: Seq<Spanned>, i: int) -> Parsed<Bexpr>
    decreases ts.len() - i, 4int,
{
    match p_aexpr(ts, i) {
        Ok((e1, j)) => if j <= i || j > ts.len() {
            Err((i, Seq::empty()))
        } else if kind_at(ts, j, Kind::Eq) || kind_at(ts, j, Kind::Lt) {
            let o = if kind_at(ts, j, Kind::Eq) {
                Cop::Eq
            } else {
                Cop::Lt
            };
            match p_aexpr(ts, j + 1) {
                Ok((e2, k)) => Ok((Bexpr::Cop(o, Box::new(e1), Box::new(e2)), k)),
                Err(f) => Err(f),
            }
        } else {
            Err((j, seq![Kind::Eq, Kind::Lt, Kind::Add, Kind::Sub, Kind::Mul]))
        },
        Err(f) => Err(f),
    }
}

/// The failure that got further into the input; the first on a tie.
pub open spec fn further(f1: Failure, f2: Failure) -> Failure {
    if f1.0 >= f2.0 {
        f1
    } else {
        f2
    }
}

/// `atom := 'true' | 'false' | '(' bexpr ')' | comparison`. After `(`, a
/// comparison whose left operand starts with the parenthesis is tried
/// first, then a parenthesized condition.
pub open spec fn p_atom(ts: Seq<Spanned>, i: int) -> Parsed<Bexpr>
    decreases ts.len() - i, 5int,
{
    if i < 0 || i >= ts.len() {
        Err((i, condition_kinds()))
    } else {
        match ts[i].1 {
            Token::BOOL(v) => Ok((Bexpr::Bool(v), i + 1)),
            Token::LPAREN => {
                let inner = match p_bexpr(ts, i + 1) {
                    Ok((b, j)) => if kind_at(ts, j, Kind::RParen) {
                        Ok((b, j + 1))
                    } else {
                        Err((j, seq![Kind::RParen, Kind::And, Kind::Or]))
                    },
                    Err(f) => Err(f),
                };
                match p_comparison(ts, i) {
                    Ok(r) => Ok(r),
                    Err(f2) => match inner {
                        Ok(r) => Ok(r),
                        Err(f1) => Err(further(f1, f2)),
                    },
                }
            },
            Token::NUM(_) => p_comparison(ts, i),
            Token::VAR(_) => p_comparison(ts, i),
            _ => Err((i, condition_kinds())),
        }
    }
}

/// `conj := atom ('and' atom)*`, grouped to the left.
pub open spec fn p_conj(ts: Seq<Spanned>, i: int) -> Parsed<Bexpr>
    decreases ts.len() - i, 6int,
{
    match p_atom(ts, i) {
        Ok((b, j)) => if j <= i || j > ts.len() {
            Err((i, Seq::empty()))
        } else {
            p_conj_rest(ts, b, j)
        },
        Err(f) => Err(f),
    }
}

pub open spec fn p_conj_rest(ts: Seq<Spanned>, acc: Bexpr, j: int) -> Parsed<Bexpr>
    decreases ts.len() - j, 6int,
{
    if kind_at(ts, j, Kind::And) {
        match p_atom(ts, j + 1) {
            Ok((b, k)) => if k <= j || k > ts.len() {
                Err((j, Seq::empty()))
            } else {
                p_conj_rest(ts, Bexpr::Bop(Bop::And, Box::new(acc), Box::new(b)), k)
            },
            Err(f) => Err(f),
        }
    } else {
        Ok((acc, j))
    }
}

/// `bexpr := conj ('or' conj)*`, grouped to the left.
pub open spec fn p_bexpr(ts: Seq<Spanned>, i: int) -> Parsed<Bexpr>
    decreases ts.len() - i, 7int,
{
    match p_conj(ts, i) {
        Ok((b, j)) => if j <= i || j > ts.len() {
            Err((i, Seq::empty()))
        } else {
            p_bexpr_rest(ts, b, j)
        },
        Err(f) => Err(f),
    }
}

pub open spec fn p_bexpr_rest(ts: Seq<Spanned>, acc: Bexpr, j: int) -> Parsed<Bexpr>
    decreases ts.len() - j, 7int,
{
    if kind_at(ts, j, Kind::Or) {
        match p_conj(ts, j + 1) {
            Ok((b, k)) => if k <= j || k > ts.len() {
                Err((j, Seq::empty()))
            } else {
                p_bexpr_rest(ts, Bexpr::Bop(Bop::Or, Box::new(acc), Box::new(b)), k)
            },
            Err(f) => Err(f),
        }
    } else {
        Ok((acc, j))
    }
}

/// `block := '{' seq '}'`
pub open spec fn p_block(ts: Seq<Spanned>, i: int) -> Parsed<Cmd>
    decreases ts.len() - i, 10int,
{
    if !kind_at(ts, i, Kind::LBrace) {
        Err((i, seq![Kind::LBrace]))
    } else {
        match p_seq(ts, i + 1) {
            Ok((c, j)) => if kind_at(ts, j, Kind::RBrace) {
                Ok((c, j + 1))
            } else {
                Err((j, seq![Kind::RBrace, Kind::Semicolon]))
            },
            Err(f) => Err(f),
        }
    }
}

/// `cmd := 'if' bexpr block 'else' block | 'while' bexpr block
///        | VAR ':=' aexpr | 'print' aexpr | 'skip'`
pub open spec fn p_cmd(ts: Seq<Spanned>, i: int) -> Parsed<Cmd>
    decreases ts.len() - i, 8int,
{
    if i < 0 || i >= ts.len() {
        Err((i, command_kinds()))
    } else {
        match ts[i].1 {
            Token::SKIP => Ok((Cmd::Skip, i + 1)),
            Token::PRINT => match p_aexpr(ts, i + 1) {
                Ok((e, j)) => Ok((Cmd::Print(Box::new(e)), j)),
                Err(f) => Err(f),
            },
            Token::VAR(x) => if kind_at(ts, i + 1, Kind::Asgn) {
                match p_aexpr(ts, i + 2) {
                    Ok((e, j)) => Ok((Cmd::Ass(x, Box::new(e)), j)),
                    Err(f) => Err(f),
                }
            } else {
                Err((i + 1, seq![Kind::Asgn]))
            },
            Token::WHILE => match p_bexpr(ts, i + 1) {
                Ok((b, j)) => if j <= i || j > ts.len() {
                    Err((i, Seq::empty()))
                } else if !kind_at(ts, j, Kind::LBrace) {
                    Err((j, seq![Kind::LBrace, Kind::And, Kind::Or]))
                } else {
                    match p_block(ts, j) {
                        Ok((c, k)) => Ok((Cmd::While(Box::new(b), Box::new(c)), k)),
                        Err(f) => Err(f),
                    }
                },
                Err(f) => Err(f),
            },
            Token::IF => match p_bexpr(ts, i + 1) {
                Ok((b, j)) => if j <= i || j > ts.len() {
                    Err((i, Seq::empty()))
                } else if !kind_at(ts, j, Kind::LBrace) {
                    Err((j, seq![Kind::LBrace, Kind::And, Kind::Or]))
                } else {
                    match p_block(ts, j) {
                        Ok((c1, k)) => if k <= j || k > ts.len() {
                            Err((j, Seq::empty()))
                        } else if !kind_at(ts, k, Kind::Else) {
                            Err((k, seq![Kind::Else]))
                        } else {
                            match p_block(ts, k + 1) {
                                Ok((c2, l)) => Ok((Cmd::If(Box::new(b), Box::new(c1), Box::new(c2)), l)),
                                Err(f) => Err(f),
                            }
                        },
                        Err(f) => Err(f),
                    }
                },
                Err(f) => Err(f),
            },
            _ => Err((i, command_kinds())),
        }
    }
}

/// `seq := cmd (';' seq)?`: a sequence nests to the right, so that
/// `c1; c2; c3` is `c1; (c2; c3)`.
pub open spec fn p_seq(ts: Seq<Spanned>, i: int) -> Parsed<Cmd>
    decreases ts.len() - i, 9int,
{
    match p_cmd(ts, i) {
        Ok((c, j)) => if j <= i || j > ts.len() {
            Err((i, Seq::empty()))
        } else if kind_at(ts, j, Kind::Semicolon) {
            match p_seq(ts, j + 1) {
                Ok((c2, k)) => Ok((Cmd::Sequence(Box::new(c), Box::new(c2)), k)),
                Err(f) => Err(f),
            }
        } else {
            Ok((c, j))
        },
        Err(f) => Err(f),
    }
}


/// A parse result agrees with what the grammar gives.
pub open spec fn agrees<T>(r: Result<(T, usize), (usize, Vec<Kind>)>, sp: Parsed<T>) -> bool {
    match r {
        Ok((t, j)) => sp == Ok::<(T, int), Failure>((t, j as int)),
        Err((p, ks)) => sp == Err::<(T, int), Failure>((p as int, ks@)),
    }
}

/// Progress of a successful parse from `i`.
pub open spec fn advances<T>(r: Result<(T, usize), (usize, Vec<Kind>)>, i: int, n: int) -> bool {
    r matches Ok((_, j)) ==> i < j <= n
}

fn kinds1(a: Kind) -> (r: Vec<Kind>)
    ensures
        r@ == seq![a],
{
    let mut v = Vec::new();
    v.push(a);
    v
}

fn kinds2(a: Kind, b: Kind) -> (r: Vec<Kind>)
    ensures
        r@ == seq![a, b],
{
    let mut v = kinds1(a);
    v.push(b);
    assert(v@ =~= seq![a, b]);
    v
}

fn kinds3(a: Kind, b: Kind, c: Kind) -> (r: Vec<Kind>)
    ensures
        r@ == seq![a, b, c],
{
    let mut v = kinds2(a, b);
    v.push(c);
    assert(v@ =~= seq![a, b, c]);
    v
}

fn kinds4(a: Kind, b: Kind, c: Kind, d: Kind) -> (r: Vec<Kind>)
    ensures
        r@ == seq![a, b, c, d],
{
    let mut v = kinds3(a, b, c);
    v.push(d);
    assert(v@ =~= seq![a, b, c, d]);
    v
}

fn kinds5(a: Kind, b: Kind, c: Kind, d: Kind, e: Kind) -> (r: Vec<Kind>)
    ensures
        r@ == seq![a, b, c, d, e],
{
    let mut v = kinds4(a, b, c, d);
    v.push(e);
    assert(v@ =~= seq![a, b, c, d, e]);
    v
}

fn is_kind(ts: &Vec<Spanned>, i: usize, k: Kind) -> (r: bool)
    ensures
        r == kind_at(ts@, i as int, k),
        ts@.len() <= usize::MAX,
{
    i < ts.len() && ts[i].1.kind() == k
}

fn factor(ts: &Vec<Spanned>, i: usize) -> (r: Result<(Aexpr, usize), (usize, Vec<Kind>)>)
    requires
        i <= ts@.len(),
    ensures
        agrees(r, p_factor(ts@, i as int)),
        advances(r, i as int, ts@.len() as int),
    decreases ts@.len() - i, 1int,
{
    if i >= ts.len() {
        return Err((i, kinds3(Kind::LParen, Kind::Num, Kind::Var)));
    }
    match &ts[i].1 {
        Token::NUM(z) => Ok((Aexpr::Int(*z), i + 1)),
        Token::VAR(x) => Ok((Aexpr::Var(x.clone()), i + 1)),
        Token::LPAREN => match aexpr(ts, i + 1) {
            Ok((e, j)) => if is_kind(ts, j, Kind::RParen) {
                Ok((e, j + 1))
            } else {
                Err((j, kinds4(Kind::RParen, Kind::Add, Kind::Sub, Kind::Mul)))
            },
            Err(f) => Err(f),
        },
        _ => Err((i, kinds3(Kind::LParen, Kind::Num, Kind::Var))),
    }
}

fn term(ts: &Vec<Spanned>, i: usize) -> (r: Result<(Aexpr, usize), (usize, Vec<Kind>)>)
    requires
        i <= ts@.len(),
    ensures
        agrees(r, p_term(ts@, i as int)),
        advances(r, i as int, ts@.len() as int),
    decreases ts@.len() - i, 2int,
{
    match factor(ts, i) {
        Ok((e, j)) => term_rest(ts, e, j),
        Err(f) => Err(f),
    }
}

fn term_rest(ts: &Vec<Spanned>, acc: Aexpr, j: usize) -> (r: Result<(Aexpr, usize), (usize, Vec<Kind>)>)
    requires
        j <= ts@.len(),
    ensures
        agrees(r, p_term_rest(ts@, acc, j as int)),
        advances(r, j as int - 1, ts@.len() as int),
    decreases ts@.len() - j, 2int,
{
    if is_kind(ts, j, Kind::Mul) {
        match factor(ts, j + 1) {
            Ok((e, k)) => term_rest(ts, Aexpr::Op(Aop::Mul, Box::new(acc), Box::new(e)), k),
            Err(f) => Err(f),
        }
    } else {
        Ok((acc, j))
    }
}

fn aexpr(ts: &Vec<Spanned>, i: usize) -> (r: Result<(Aexpr, usize), (usize, Vec<Kind>)>)
    requires
        i <= ts@.len(),
    ensures
        agrees(r, p_aexpr(ts@, i as int)),
        advances(r, i as int, ts@.len() as int),
    decreases ts@.len() - i, 3int,
{
    match term(ts, i) {
        Ok((e, j)) => aexpr_rest(ts, e, j),
        Err(f) => Err(f),
    }
}

fn aexpr_rest(ts: &Vec<Spanned>, acc: Aexpr, j: usize) -> (r: Result<(Aexpr, usize), (usize, Vec<Kind>)>)
    requires
        j <= ts@.len(),
    ensures
        agrees(r, p_aexpr_rest(ts@, acc, j as int)),
        advances(r, j as int - 1, ts@.len() as int),
    decreases ts@.len() - j, 3int,
{
    if is_kind(ts, j, Kind::Add) || is_kind(ts, j, Kind::Sub) {
        let o = if is_kind(ts, j, Kind::Add) {
            Aop::Add
        } else {
            Aop::Sub
        };
        match term(ts, j + 1) {
            Ok((e, k)) => aexpr_rest(ts, Aexpr::Op(o, Box::new(acc), Box::new(e)), k),
            Err(f) => Err(f),
        }
    } else {
        Ok((acc, j))
    }
}

fn comparison(ts: &Vec<Spanned>, i: usize) -> (r: Result<(Bexpr, usize), (usize, Vec<Kind>)>)
    requires
        i <= ts@.len(),
    ensures
        agrees(r, p_comparison(ts@, i as int)),
        advances(r, i as int, ts@.len() as int),
    decreases ts@.len() - i, 4int,
{
    match aexpr(ts, i) {
        Ok((e1, j)) => if is_kind(ts, j, Kind::Eq) || is_kind(ts, j, Kind::Lt) {
            let o = if is_kind(ts, j, Kind::Eq) {
                Cop::Eq
            } else {
                Cop::Lt
            };
            match aexpr(ts, j + 1) {
                Ok((e2, k)) => Ok((Bexpr::Cop(o, Box::new(e1), Box::new(e2)), k)),
                Err(f) => Err(f),
            }
        } else {
            Err((j, kinds5(Kind::Eq, Kind::Lt, Kind::Add, Kind::Sub, Kind::Mul)))
        },
        Err(f) => Err(f),
    }
}

fn atom(ts: &Vec<Spanned>, i: usize) -> (r: Result<(Bexpr, usize), (usize, Vec<Kind>)>)
    requires
        i <= ts@.len(),
    ensures
        agrees(r, p_atom(ts@, i as int)),
        advances(r, i as int, ts@.len() as int),
    decreases ts@.len() - i, 5int,
{
    if i >= ts.len() {
        return Err((i, kinds4(Kind::Bool, Kind::LParen, Kind::Num, Kind::Var)));
    }
    match &ts[i].1 {
        Token::BOOL(v) => Ok((Bexpr::Bool(*v), i + 1)),
        Token::LPAREN => {
            match comparison(ts, i) {
                Ok(r) => Ok(r),
                Err(f2) => {
                    let inner = match bexpr(ts, i + 1) {
                        Ok((b, j)) => if is_kind(ts, j, Kind::RParen) {
                            Ok((b, j + 1))
                        } else {
                            Err((j, kinds3(Kind::RParen, Kind::And, Kind::Or)))
                        },
                        Err(f) => Err(f),
                    };
                    match inner {
                        Ok(r) => Ok(r),
                        Err(f1) => if f1.0 >= f2.0 {
                            Err(f1)
                        } else {
                            Err(f2)
                        },
                    }
                },
            }
        },
        Token::NUM(_) => comparison(ts, i),
        Token::VAR(_) => comparison(ts, i),
        _ => Err((i, kinds4(Kind::Bool, Kind::LParen, Kind::Num, Kind::Var))),
    }
}

fn conj(ts: &Vec<Spanned>, i: usize) -> (r: Result<(Bexpr, usize), (usize, Vec<Kind>)>)
    requires
        i <= ts@.len(),
    ensures
        agrees(r, p_conj(ts@, i as int)),
        advances(r, i as int, ts@.len() as int),
    decreases ts@.len() - i, 6int,
{
    match atom(ts, i) {
        Ok((b, j)) => conj_rest(ts, b, j),
        Err(f) => Err(f),
    }
}

fn conj_rest(ts: &Vec<Spanned>, acc: Bexpr, j: usize) -> (r: Result<(Bexpr, usize), (usize, Vec<Kind>)>)
    requires
        j <= ts@.len(),
    ensures
        agrees(r, p_conj_rest(ts@, acc, j as int)),
        advances(r, j as int - 1, ts@.len() as int),
    decreases ts@.len() - j, 6int,
{
    if is_kind(ts, j, Kind::And) {
        match atom(ts, j + 1) {
            Ok((b, k)) => conj_rest(ts, Bexpr::Bop(Bop::And, Box::new(acc), Box::new(b)), k),
            Err(f) => Err(f),
        }
    } else {
        Ok((acc, j))
    }
}

fn bexpr(ts: &Vec<Spanned>, i: usize) -> (r: Result<(Bexpr, usize), (usize, Vec<Kind>)>)
    requires
        i <= ts@.len(),
    ensures
        agrees(r, p_bexpr(ts@, i as int)),
        advances(r, i as int, ts@.len() as int),
    decreases ts@.len() - i, 7int,
{
    match conj(ts, i) {
        Ok((b, j)) => bexpr_rest(ts, b, j),
        Err(f) => Err(f),
    }
}

fn bexpr_rest(ts: &Vec<Spanned>, acc: Bexpr, j: usize) -> (r: Result<(Bexpr, usize), (usize, Vec<Kind>)>)
    requires
        j <= ts@.len(),
    ensures
        agrees(r, p_bexpr_rest(ts@, acc, j as int)),
        advances(r, j as int - 1, ts@.len() as int),
    decreases ts@.len() - j, 7int,
{
    if is_kind(ts, j, Kind::Or) {
        match conj(ts, j + 1) {
            Ok((b, k)) => bexpr_rest(ts, Bexpr::Bop(Bop::Or, Box::new(acc), Box::new(b)), k),
            Err(f) => Err(f),
        }
    } else {
        Ok((acc, j))
    }
}

fn block(ts: &Vec<Spanned>, i: usize) -> (r: Result<(Cmd, usize), (usize, Vec<Kind>)>)
    requires
        i <= ts@.len(),
    ensures
        agrees(r, p_block(ts@, i as int)),
        advances(r, i as int, ts@.len() as int),
    decreases ts@.len() - i, 10int,
{
    if !is_kind(ts, i, Kind::LBrace) {
        return Err((i, kinds1(Kind::LBrace)));
    }
    match seq(ts, i + 1) {
        Ok((c, j)) => if is_kind(ts, j, Kind::RBrace) {
            Ok((c, j + 1))
        } else {
            Err((j, kinds2(Kind::RBrace, Kind::Semicolon)))
        },
        Err(f) => Err(f),
    }
}

fn cmd(ts: &Vec<Spanned>, i: usize) -> (r: Result<(Cmd, usize), (usize, Vec<Kind>)>)
    requires
        i <= ts@.len(),
    ensures
        agrees(r, p_cmd(ts@, i as int)),
        advances(r, i as int, ts@.len() as int),
    decreases ts@.len() - i, 8int,
{
    if i >= ts.len() {
        return Err((i, kinds5(Kind::If, Kind::While, Kind::Var, Kind::Print, Kind::Skip)));
    }
    match &ts[i].1 {
        Token::SKIP => Ok((Cmd::Skip, i + 1)),
        Token::PRINT => match aexpr(ts, i + 1) {
            Ok((e, j)) => Ok((Cmd::Print(Box::new(e)), j)),
            Err(f) => Err(f),
        },
        Token::VAR(x) => if is_kind(ts, i + 1, Kind::Asgn) {
            match aexpr(ts, i + 2) {
                Ok((e, j)) => Ok((Cmd::Ass(x.clone(), Box::new(e)), j)),
                Err(f) => Err(f),
            }
        } else {
            Err((i + 1, kinds1(Kind::Asgn)))
        },
        Token::WHILE => match bexpr(ts, i + 1) {
            Ok((b, j)) => if !is_kind(ts, j, Kind::LBrace) {
                Err((j, kinds3(Kind::LBrace, Kind::And, Kind::Or)))
            } else {
                match block(ts, j) {
                    Ok((c, k)) => Ok((Cmd::While(Box::new(b), Box::new(c)), k)),
                    Err(f) => Err(f),
                }
            },
            Err(f) => Err(f),
        },
        Token::IF => match bexpr(ts, i + 1) {
            Ok((b, j)) => if !is_kind(ts, j, Kind::LBrace) {
                Err((j, kinds3(Kind::LBrace, Kind::And, Kind::Or)))
            } else {
                match block(ts, j) {
                    Ok((c1, k)) => if !is_kind(ts, k, Kind::Else) {
                        Err((k, kinds1(Kind::Else)))
                    } else {
                        match block(ts, k + 1) {
                            Ok((c2, l)) => Ok((Cmd::If(Box::new(b), Box::new(c1), Box::new(c2)), l)),
                            Err(f) => Err(f),
                        }
                    },
                    Err(f) => Err(f),
                }
            },
            Err(f) => Err(f),
        },
        _ => Err((i, kinds5(Kind::If, Kind::While, Kind::Var, Kind::Print, Kind::Skip))),
    }
}

fn seq(ts: &Vec<Spanned>, i: usize) -> (r: Result<(Cmd, usize), (usize, Vec<Kind>)>)
    requires
        i <= ts@.len(),
    ensures
        agrees(r, p_seq(ts@, i as int)),
        advances(r, i as int, ts@.len() as int),
    decreases ts@.len() - i, 9int,
{
    match cmd(ts, i) {
        Ok((c, j)) => if is_kind(ts, j, Kind::Semicolon) {
            match seq(ts, j + 1) {
                Ok((c2, k)) => Ok((Cmd::Sequence(Box::new(c), Box::new(c2)), k)),
                Err(f) => Err(f),
            }
        } else {
            Ok((c, j))
        },
        Err(f) => Err(f),
    }
}

/// Syntax errors.
#[derive(Debug)]
pub enum ParseError {
    /// A token that cannot stand where it does, and the kinds that could.
    UnrecognizedToken { token: Spanned, expected: Vec<Kind> },
    /// The input ended early, at this offset; the kinds that could follow.
    UnrecognizedEOF { location: usize, expected: Vec<Kind> },
    /// A whole program was read, and this token follows it.
    ExtraToken { token: Spanned },
}

/// The offset at which the tokens end.
pub open spec fn end_offset(ts: Seq<Spanned>) -> usize {
    if ts.len() == 0 {
        0
    } else {
        ts.last().2
    }
}

/// A parse error reports the grammar failure `f` over the tokens `ts`.
pub open spec fn reports_failure(e: ParseError, ts: Seq<Spanned>, f: Failure) -> bool {
    match e {
        ParseError::UnrecognizedToken { token, expected } => 0 <= f.0 < ts.len() && token == ts[f.0]
            && expected@ == f.1,
        ParseError::UnrecognizedEOF { location, expected } => f.0 >= ts.len() && location
            == end_offset(ts) && expected@ == f.1,
        ParseError::ExtraToken { .. } => false,
    }
}

/// Parses a whole program: a sequence that uses every token. The result is
/// the tree that the grammar gives for the tokens. Otherwise the error names
/// the first token (or the end of input) where the grammar fails and the
/// kinds it would accept there, or the first token after a complete program.
pub fn parse(tokens: Vec<Spanned>) -> (r: Result<Cmd, ParseError>)
    ensures
        match p_seq(tokens@, 0) {
            Ok((c, j)) => if j == tokens@.len() {
                r matches Ok(d) && d == c
            } else {
                r matches Err(ParseError::ExtraToken { token }) && 0 <= j < tokens@.len() && token
                    == tokens@[j]
            },
            Err(f) => r matches Err(e) && reports_failure(e, tokens@, f),
        },
{
    let (p, expected) = match seq(&tokens, 0) {
        Ok((c, j)) => {
            if j == tokens.len() {
                return Ok(c);
            }
            let token = (tokens[j].0, tokens[j].1.copy(), tokens[j].2);
            return Err(ParseError::ExtraToken { token });
        },
        Err(f) => f,
    };
    if p < tokens.len() {
        let token = (tokens[p].0, tokens[p].1.copy(), tokens[p].2);
        Err(ParseError::UnrecognizedToken { token, expected })
    } else {
        let location = if tokens.len() == 0 {
            0
        } else {
            tokens[tokens.len() - 1].2
        };
        Err(ParseError::UnrecognizedEOF { location, expected })
    }
}

} // verus!
