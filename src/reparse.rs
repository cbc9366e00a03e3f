use vstd::prelude::*;
use crate::lexer::{Spanned, Token};
use crate::parser::{
    kind_at, kind_of, p_aexpr, p_aexpr_rest, p_atom, p_bexpr, p_bexpr_rest, p_block, p_cmd,
    p_comparison, p_conj, p_conj_rest, p_factor, p_seq, p_term, p_term_rest, Kind,
};
use crate::syntax::{Aexpr, Aop, Bexpr, Bop, Cmd, Cop};

verus! {

pub open spec fn aop_token(o: Aop) -> Token {
    match o {
        Aop::Add => Token::ADD,
        Aop::Sub => Token::SUB,
        Aop::Mul => Token::MUL,
    }
}

pub open spec fn cop_token(o: Cop) -> Token {
    match o {
        Cop::Eq => Token::EQ,
        Cop::Lt => Token::LT,
    }
}

pub open spec fn bop_token(o: Bop) -> Token {
    match o {
        Bop::And => Token::AND,
        Bop::Or => Token::OR,
    }
}

/// The tokens of an arithmetic expression as it is printed: every
/// operation in parentheses.
pub open spec fn aexpr_tokens(e: Aexpr) -> Seq<Token>
    decreases e,
{
    match e {
        Aexpr::Int(z) => seq![Token::NUM(z)],
        Aexpr::Var(x) => seq![Token::VAR(x)],
        Aexpr::Op(o, e1, e2) => seq![Token::LPAREN] + aexpr_tokens(*e1) + seq![aop_token(o)]
            + aexpr_tokens(*e2) + seq![Token::RPAREN],
    }
}

/// The tokens of a condition as it is printed: every operation in
/// parentheses. A negation has no tokens: the language cannot write it.
pub open spec fn bexpr_tokens(b: Bexpr) -> Seq<Token>
    decreases b,
{
    match b {
        Bexpr::Bool(v) => seq![Token::BOOL(v)],
        Bexpr::Not(_) => Seq::empty(),
        Bexpr::Cop(o, e1, e2) => seq![Token::LPAREN] + aexpr_tokens(*e1) + seq![cop_token(o)]
            + aexpr_tokens(*e2) + seq![Token::RPAREN],
        Bexpr::Bop(o, b1, b2) => seq![Token::LPAREN] + bexpr_tokens(*b1) + seq![bop_token(o)]
            + bexpr_tokens(*b2) + seq![Token::RPAREN],
    }
}

/// The tokens of a command as it is printed.
pub open spec fn cmd_tokens(c: Cmd) -> Seq<Token>
    decreases c,
{
    match c {
        Cmd::Skip => seq![Token::SKIP],
        Cmd::Ass(x, e) => seq![Token::VAR(x), Token::ASGN] + aexpr_tokens(*e),
        Cmd::Print(e) => seq![Token::PRINT] + aexpr_tokens(*e),
        Cmd::Sequence(c1, c2) => cmd_tokens(*c1) + seq![Token::SEMICOLON] + cmd_tokens(*c2),
        Cmd::If(b, c1, c2) => seq![Token::IF] + bexpr_tokens(*b) + seq![Token::LBRACE] + cmd_tokens(*c1)
            + seq![Token::RBRACE, Token::ELSE, Token::LBRACE] + cmd_tokens(*c2) + seq![Token::RBRACE],
        Cmd::While(b, c1) => seq![Token::WHILE] + bexpr_tokens(*b) + seq![Token::LBRACE] + cmd_tokens(
            *c1,
        ) + seq![Token::RBRACE],
    }
}

/// The condition has no negation.
pub open spec fn writable_b(b: Bexpr) -> bool
    decreases b,
{
    match b {
        Bexpr::Bool(_) => true,
        Bexpr::Not(_) => false,
        Bexpr::Cop(..) => true,
        Bexpr::Bop(_, b1, b2) => writable_b(*b1) && writable_b(*b2),
    }
}

/// The command is in the shape the parser gives: the first part of a
/// sequence is never itself a sequence, and no condition has a negation.
pub open spec fn canonical(c: Cmd) -> bool
    decreases c,
{
    match c {
        Cmd::Sequence(c1, c2) => !(*c1 is Sequence) && canonical(*c1) && canonical(*c2),
        Cmd::If(b, c1, c2) => writable_b(*b) && canonical(*c1) && canonical(*c2),
        Cmd::While(b, c1) => writable_b(*b) && canonical(*c1),
        _ => true,
    }
}

/// The tokens `w` stand in `ts` from index `i` on.
pub open spec fn tokens_at(ts: Seq<Spanned>, i: int, w: Seq<Token>) -> bool {
    &&& 0 <= i
    &&& i + w.len() <= ts.len()
    &&& forall|k: int| 0 <= k < w.len() ==> #[trigger] ts[i + k].1 == w[k]
}

proof fn lemma_split(ts: Seq<Spanned>, i: int, a: Seq<Token>, b: Seq<Token>)
    requires
        tokens_at(ts, i, a + b),
    ensures
        tokens_at(ts, i, a),
        tokens_at(ts, i + a.len(), b),
{
    assert forall|k: int| 0 <= k < a.len() implies #[trigger] ts[i + k].1 == a[k] by {
        assert((a + b)[k] == a[k]);
    }
    assert forall|k: int| 0 <= k < b.len() implies #[trigger] ts[i + a.len() + k].1 == b[k] by {
        assert((a + b)[a.len() + k] == b[k]);
        assert(ts[i + (a.len() + k)].1 == (a + b)[a.len() + k]);
    }
}

proof fn lemma_one(ts: Seq<Spanned>, i: int, t: Token)
    requires
        tokens_at(ts, i, seq![t]),
    ensures
        0 <= i < ts.len(),
        ts[i].1 == t,
{
    assert(ts[i + 0].1 == seq![t][0]);
}

/// Splits the tokens of a binary node `( l o r )` standing at `i`.
proof fn lemma_binary(ts: Seq<Spanned>, i: int, l: Seq<Token>, o: Token, r: Seq<Token>)
    requires
        tokens_at(ts, i, seq![Token::LPAREN] + l + seq![o] + r + seq![Token::RPAREN]),
    ensures
        ts[i].1 == Token::LPAREN,
        tokens_at(ts, i + 1, l),
        ts[i + 1 + l.len()].1 == o,
        tokens_at(ts, i + 2 + l.len(), r),
        ts[i + 2 + l.len() + r.len()].1 == Token::RPAREN,
{
    let p = seq![Token::LPAREN];
    lemma_split(ts, i, p + l + seq![o] + r, seq![Token::RPAREN]);
    lemma_split(ts, i, p + l + seq![o], r);
    lemma_split(ts, i, p + l, seq![o]);
    lemma_split(ts, i, p, l);
    lemma_one(ts, i, Token::LPAREN);
    lemma_one(ts, i + 1 + l.len(), o);
    lemma_one(ts, i + 2 + l.len() + r.len(), Token::RPAREN);
}

proof fn lemma_aexpr_tokens_first(e: Aexpr)
    ensures
        aexpr_tokens(e).len() >= 1,
        kind_of(aexpr_tokens(e)[0]) == Kind::Num || kind_of(aexpr_tokens(e)[0]) == Kind::Var
            || kind_of(aexpr_tokens(e)[0]) == Kind::LParen,
{
}

/// A printed arithmetic expression is read back as one factor.
proof fn lemma_factor(ts: Seq<Spanned>, i: int, e: Aexpr)
    requires
        tokens_at(ts, i, aexpr_tokens(e)),
    ensures
        p_factor(ts, i) == Ok::<(Aexpr, int), (int, Seq<Kind>)>((e, i + aexpr_tokens(e).len())),
    decreases e,
{
    match e {
        Aexpr::Op(o, e1, e2) => {
            let l = aexpr_tokens(*e1);
            let r = aexpr_tokens(*e2);
            lemma_binary(ts, i, l, aop_token(o), r);
            lemma_aexpr_tokens_first(*e1);
            lemma_aexpr_tokens_first(*e2);
            lemma_factor(ts, i + 1, *e1);
            lemma_factor(ts, i + 2 + l.len(), *e2);
            let j1 = i + 1 + l.len();
            let j2 = j1 + 1 + r.len();
            assert(!kind_at(ts, j2, Kind::Mul) && !kind_at(ts, j2, Kind::Add) && !kind_at(ts, j2, Kind::Sub));
            if o == Aop::Mul {
                assert(p_term_rest(ts, Aexpr::Op(o, e1, e2), j2) == Ok::<(Aexpr, int), (int, Seq<Kind>)>((e, j2)));
                assert(p_term_rest(ts, *e1, j1) == Ok::<(Aexpr, int), (int, Seq<Kind>)>((e, j2)));
                assert(p_term(ts, i + 1) == Ok::<(Aexpr, int), (int, Seq<Kind>)>((e, j2)));
                assert(p_aexpr_rest(ts, e, j2) == Ok::<(Aexpr, int), (int, Seq<Kind>)>((e, j2)));
            } else {
                assert(p_term_rest(ts, *e1, j1) == Ok::<(Aexpr, int), (int, Seq<Kind>)>((*e1, j1)));
                assert(p_term(ts, i + 1) == Ok::<(Aexpr, int), (int, Seq<Kind>)>((*e1, j1)));
                assert(p_term_rest(ts, *e2, j2) == Ok::<(Aexpr, int), (int, Seq<Kind>)>((*e2, j2)));
                assert(p_term(ts, j1 + 1) == Ok::<(Aexpr, int), (int, Seq<Kind>)>((*e2, j2)));
                assert(p_aexpr_rest(ts, Aexpr::Op(o, e1, e2), j2) == Ok::<(Aexpr, int), (int, Seq<Kind>)>((e, j2)));
                assert(p_aexpr_rest(ts, *e1, j1) == Ok::<(Aexpr, int), (int, Seq<Kind>)>((e, j2)));
            }
            assert(p_aexpr(ts, i + 1) == Ok::<(Aexpr, int), (int, Seq<Kind>)>((e, j2)));
        },
        _ => {
            lemma_one(ts, i, aexpr_tokens(e)[0]);
        },
    }
}

/// A printed arithmetic expression followed by no arithmetic operator is
/// read back whole.
proof fn lemma_aexpr(ts: Seq<Spanned>, i: int, e: Aexpr)
    requires
        tokens_at(ts, i, aexpr_tokens(e)),
        !kind_at(ts, i + aexpr_tokens(e).len(), Kind::Add),
        !kind_at(ts, i + aexpr_tokens(e).len(), Kind::Sub),
        !kind_at(ts, i + aexpr_tokens(e).len(), Kind::Mul),
    ensures
        p_aexpr(ts, i) == Ok::<(Aexpr, int), (int, Seq<Kind>)>((e, i + aexpr_tokens(e).len())),
{
    let j = i + aexpr_tokens(e).len();
    lemma_aexpr_tokens_first(e);
    lemma_factor(ts, i, e);
    assert(p_term_rest(ts, e, j) == Ok::<(Aexpr, int), (int, Seq<Kind>)>((e, j)));
    assert(p_term(ts, i) == Ok::<(Aexpr, int), (int, Seq<Kind>)>((e, j)));
    assert(p_aexpr_rest(ts, e, j) == Ok::<(Aexpr, int), (int, Seq<Kind>)>((e, j)));
}

type PB = Result<(Bexpr, int), (int, Seq<Kind>)>;

type PC = Result<(Cmd, int), (int, Seq<Kind>)>;

/// A printed condition does not start an arithmetic expression.
proof fn lemma_not_arith(ts: Seq<Spanned>, k: int, b: Bexpr)
    requires
        writable_b(b),
        tokens_at(ts, k, bexpr_tokens(b)),
    ensures
        p_aexpr(ts, k) is Err,
    decreases b,
{
    match b {
        Bexpr::Bool(v) => {
            lemma_one(ts, k, Token::BOOL(v));
        },
        Bexpr::Cop(o, e1, e2) => {
            let l = aexpr_tokens(*e1);
            lemma_binary(ts, k, l, cop_token(o), aexpr_tokens(*e2));
            lemma_aexpr(ts, k + 1, *e1);
        },
        Bexpr::Bop(o, b1, b2) => {
            lemma_binary(ts, k, bexpr_tokens(*b1), bop_token(o), bexpr_tokens(*b2));
            lemma_not_arith(ts, k + 1, *b1);
        },
        Bexpr::Not(_) => {},
    }
    assert(p_factor(ts, k) is Err);
    assert(p_term(ts, k) is Err);
}

proof fn lemma_bexpr_tokens_len(b: Bexpr)
    requires
        writable_b(b),
    ensures
        bexpr_tokens(b).len() >= 1,
{
}

/// A printed condition is read back as one atom.
proof fn lemma_atom(ts: Seq<Spanned>, k: int, b: Bexpr)
    requires
        writable_b(b),
        tokens_at(ts, k, bexpr_tokens(b)),
    ensures
        p_atom(ts, k) == Ok::<(Bexpr, int), (int, Seq<Kind>)>((b, k + bexpr_tokens(b).len())),
    decreases b,
{
    let n = bexpr_tokens(b).len();
    match b {
        Bexpr::Bool(v) => {
            lemma_one(ts, k, Token::BOOL(v));
        },
        Bexpr::Cop(o, e1, e2) => {
            let l = aexpr_tokens(*e1);
            let r = aexpr_tokens(*e2);
            lemma_binary(ts, k, l, cop_token(o), r);
            lemma_not_arith(ts, k, b);
            lemma_aexpr(ts, k + 1, *e1);
            lemma_aexpr(ts, k + 2 + l.len(), *e2);
            lemma_aexpr_tokens_first(*e1);
            lemma_one(ts, k + 1, l[0]);
            let j2 = k + 2 + l.len() + r.len();
            assert(p_comparison(ts, k + 1) == Ok::<(Bexpr, int), (int, Seq<Kind>)>((b, j2)));
            assert(p_atom(ts, k + 1) == Ok::<(Bexpr, int), (int, Seq<Kind>)>((b, j2)));
            assert(p_conj_rest(ts, b, j2) == Ok::<(Bexpr, int), (int, Seq<Kind>)>((b, j2)));
            assert(p_conj(ts, k + 1) == Ok::<(Bexpr, int), (int, Seq<Kind>)>((b, j2)));
            assert(p_bexpr_rest(ts, b, j2) == Ok::<(Bexpr, int), (int, Seq<Kind>)>((b, j2)));
            assert(p_bexpr(ts, k + 1) == Ok::<(Bexpr, int), (int, Seq<Kind>)>((b, j2)));
            assert(p_comparison(ts, k) is Err);
        },
        Bexpr::Bop(o, b1, b2) => {
            let l = bexpr_tokens(*b1);
            let r = bexpr_tokens(*b2);
            lemma_binary(ts, k, l, bop_token(o), r);
            lemma_not_arith(ts, k, b);
            lemma_bexpr_tokens_len(*b1);
            lemma_bexpr_tokens_len(*b2);
            lemma_atom(ts, k + 1, *b1);
            lemma_atom(ts, k + 2 + l.len(), *b2);
            let j1 = k + 1 + l.len();
            let j2 = j1 + 1 + r.len();
            if o == Bop::And {
                assert(p_conj_rest(ts, b, j2) == Ok::<(Bexpr, int), (int, Seq<Kind>)>((b, j2)));
                assert(p_conj_rest(ts, *b1, j1) == Ok::<(Bexpr, int), (int, Seq<Kind>)>((b, j2)));
                assert(p_conj(ts, k + 1) == Ok::<(Bexpr, int), (int, Seq<Kind>)>((b, j2)));
                assert(p_bexpr_rest(ts, b, j2) == Ok::<(Bexpr, int), (int, Seq<Kind>)>((b, j2)));
            } else {
                assert(p_conj_rest(ts, *b1, j1) == Ok::<(Bexpr, int), (int, Seq<Kind>)>((*b1, j1)));
                assert(p_conj(ts, k + 1) == Ok::<(Bexpr, int), (int, Seq<Kind>)>((*b1, j1)));
                assert(p_conj_rest(ts, *b2, j2) == Ok::<(Bexpr, int), (int, Seq<Kind>)>((*b2, j2)));
                assert(p_conj(ts, j1 + 1) == Ok::<(Bexpr, int), (int, Seq<Kind>)>((*b2, j2)));
                assert(p_bexpr_rest(ts, b, j2) == Ok::<(Bexpr, int), (int, Seq<Kind>)>((b, j2)));
                assert(p_bexpr_rest(ts, *b1, j1) == Ok::<(Bexpr, int), (int, Seq<Kind>)>((b, j2)));
            }
            assert(p_bexpr(ts, k + 1) == Ok::<(Bexpr, int), (int, Seq<Kind>)>((b, j2)));
            assert(p_comparison(ts, k) is Err);
        },
        Bexpr::Not(_) => {},
    }
}

/// A printed condition followed by neither `and` nor `or` is read back whole.
proof fn lemma_bexpr(ts: Seq<Spanned>, k: int, b: Bexpr)
    requires
        writable_b(b),
        tokens_at(ts, k, bexpr_tokens(b)),
        !kind_at(ts, k + bexpr_tokens(b).len(), Kind::And),
        !kind_at(ts, k + bexpr_tokens(b).len(), Kind::Or),
    ensures
        p_bexpr(ts, k) == Ok::<(Bexpr, int), (int, Seq<Kind>)>((b, k + bexpr_tokens(b).len())),
{
    let j = k + bexpr_tokens(b).len();
    lemma_bexpr_tokens_len(b);
    lemma_atom(ts, k, b);
    assert(p_conj_rest(ts, b, j) == Ok::<(Bexpr, int), (int, Seq<Kind>)>((b, j)));
    assert(p_conj(ts, k) == Ok::<(Bexpr, int), (int, Seq<Kind>)>((b, j)));
    assert(p_bexpr_rest(ts, b, j) == Ok::<(Bexpr, int), (int, Seq<Kind>)>((b, j)));
}

/// The token after a command: the end, `;` or `}`.
pub open spec fn command_follows(ts: Seq<Spanned>, j: int) -> bool {
    j == ts.len() || kind_at(ts, j, Kind::Semicolon) || kind_at(ts, j, Kind::RBrace)
}

proof fn lemma_block(ts: Seq<Spanned>, i: int, c: Cmd)
    requires
        canonical(c),
        tokens_at(ts, i, seq![Token::LBRACE] + cmd_tokens(c) + seq![Token::RBRACE]),
    ensures
        p_block(ts, i) == Ok::<(Cmd, int), (int, Seq<Kind>)>((c, i + cmd_tokens(c).len() + 2)),
    decreases c, 3int,
{
    let m = cmd_tokens(c);
    lemma_split(ts, i, seq![Token::LBRACE] + m, seq![Token::RBRACE]);
    lemma_split(ts, i, seq![Token::LBRACE], m);
    lemma_one(ts, i, Token::LBRACE);
    lemma_one(ts, i + 1 + m.len(), Token::RBRACE);
    lemma_seq(ts, i + 1, c);
}

proof fn lemma_cmd_while(ts: Seq<Spanned>, i: int, c: Cmd)
    requires
        canonical(c),
        c is While,
        tokens_at(ts, i, cmd_tokens(c)),
        command_follows(ts, i + cmd_tokens(c).len()),
    ensures
        p_cmd(ts, i) == Ok::<(Cmd, int), (int, Seq<Kind>)>((c, i + cmd_tokens(c).len())),
    decreases c, 0int,
{
    if let Cmd::While(b, body) = c {
        let bt = bexpr_tokens(*b);
        let blk = seq![Token::LBRACE] + cmd_tokens(*body) + seq![Token::RBRACE];
        assert(cmd_tokens(c) =~= seq![Token::WHILE] + bt + blk);
        lemma_split(ts, i, seq![Token::WHILE] + bt, blk);
        lemma_split(ts, i, seq![Token::WHILE], bt);
        lemma_one(ts, i, Token::WHILE);
        lemma_split(ts, i + 1 + bt.len(), seq![Token::LBRACE], cmd_tokens(*body) + seq![Token::RBRACE]);
        lemma_one(ts, i + 1 + bt.len(), Token::LBRACE);
        lemma_bexpr_tokens_len(*b);
        lemma_bexpr(ts, i + 1, *b);
        lemma_block(ts, i + 1 + bt.len(), *body);
    }
}

#[verifier::rlimit(60)]
proof fn lemma_cmd_if(ts: Seq<Spanned>, i: int, c: Cmd)
    requires
        canonical(c),
        c is If,
        tokens_at(ts, i, cmd_tokens(c)),
        command_follows(ts, i + cmd_tokens(c).len()),
    ensures
        p_cmd(ts, i) == Ok::<(Cmd, int), (int, Seq<Kind>)>((c, i + cmd_tokens(c).len())),
    decreases c, 0int,
{
    if let Cmd::If(b, c1, c2) = c {
        let bt = bexpr_tokens(*b);
        let blk1 = seq![Token::LBRACE] + cmd_tokens(*c1) + seq![Token::RBRACE];
        let blk2 = seq![Token::LBRACE] + cmd_tokens(*c2) + seq![Token::RBRACE];
        assert(cmd_tokens(c) =~= seq![Token::IF] + bt + blk1 + seq![Token::ELSE] + blk2);
        lemma_split(ts, i, seq![Token::IF] + bt + blk1 + seq![Token::ELSE], blk2);
        lemma_split(ts, i, seq![Token::IF] + bt + blk1, seq![Token::ELSE]);
        lemma_split(ts, i, seq![Token::IF] + bt, blk1);
        lemma_split(ts, i, seq![Token::IF], bt);
        lemma_one(ts, i, Token::IF);
        let j = i + 1 + bt.len();
        let k = j + blk1.len();
        lemma_one(ts, k, Token::ELSE);
        lemma_split(ts, j, seq![Token::LBRACE], cmd_tokens(*c1) + seq![Token::RBRACE]);
        lemma_one(ts, j, Token::LBRACE);
        lemma_bexpr_tokens_len(*b);
        lemma_bexpr(ts, i + 1, *b);
        lemma_block(ts, j, *c1);
        lemma_block(ts, k + 1, *c2);
        let l = k + 1 + blk2.len();
        assert(p_bexpr(ts, i + 1) == Ok::<(Bexpr, int), (int, Seq<Kind>)>((*b, j)));
        assert(p_block(ts, j) == Ok::<(Cmd, int), (int, Seq<Kind>)>((*c1, k)));
        assert(p_block(ts, k + 1) == Ok::<(Cmd, int), (int, Seq<Kind>)>((*c2, l)));
        assert(l == i + cmd_tokens(c).len());
    }
}

/// A printed command that is not a sequence is read back as one command.
proof fn lemma_cmd(ts: Seq<Spanned>, i: int, c: Cmd)
    requires
        canonical(c),
        !(c is Sequence),
        tokens_at(ts, i, cmd_tokens(c)),
        command_follows(ts, i + cmd_tokens(c).len()),
    ensures
        p_cmd(ts, i) == Ok::<(Cmd, int), (int, Seq<Kind>)>((c, i + cmd_tokens(c).len())),
    decreases c, 1int,
{
    let n = cmd_tokens(c).len();
    match c {
        Cmd::Skip => {
            lemma_one(ts, i, Token::SKIP);
        },
        Cmd::Print(e) => {
            lemma_split(ts, i, seq![Token::PRINT], aexpr_tokens(*e));
            lemma_one(ts, i, Token::PRINT);
            lemma_aexpr(ts, i + 1, *e);
        },
        Cmd::Ass(x, e) => {
            lemma_split(ts, i, seq![Token::VAR(x), Token::ASGN], aexpr_tokens(*e));
            assert(ts[i + 0].1 == seq![Token::VAR(x), Token::ASGN][0]);
            assert(ts[i + 1].1 == seq![Token::VAR(x), Token::ASGN][1]);
            lemma_aexpr(ts, i + 2, *e);
        },
        Cmd::While(..) => lemma_cmd_while(ts, i, c),
        Cmd::If(..) => lemma_cmd_if(ts, i, c),
        Cmd::Sequence(..) => {},
    }
}

/// A printed command followed by the end or `}` is read back whole.
proof fn lemma_seq(ts: Seq<Spanned>, i: int, c: Cmd)
    requires
        canonical(c),
        tokens_at(ts, i, cmd_tokens(c)),
        i + cmd_tokens(c).len() == ts.len() || kind_at(ts, i + cmd_tokens(c).len(), Kind::RBrace),
    ensures
        p_seq(ts, i) == Ok::<(Cmd, int), (int, Seq<Kind>)>((c, i + cmd_tokens(c).len())),
    decreases c, 2int,
{
    let n = cmd_tokens(c).len();
    match c {
        Cmd::Sequence(c1, c2) => {
            let l = cmd_tokens(*c1);
            lemma_split(ts, i, l + seq![Token::SEMICOLON], cmd_tokens(*c2));
            lemma_split(ts, i, l, seq![Token::SEMICOLON]);
            lemma_one(ts, i + l.len(), Token::SEMICOLON);
            lemma_cmd(ts, i, *c1);
            lemma_cmd_tokens_len(*c1);
            lemma_seq(ts, i + l.len() + 1, *c2);
        },
        _ => {
            lemma_cmd(ts, i, c);
            lemma_cmd_tokens_len(c);
        },
    }
}

proof fn lemma_cmd_tokens_len(c: Cmd)
    ensures
        cmd_tokens(c).len() >= 1,
    decreases c,
{
    if let Cmd::Sequence(c1, c2) = c {
        lemma_cmd_tokens_len(*c1);
    }
}

/// Printing and parsing agree: the tokens of a printed program parse back
/// to that program, for every program in the shape the parser produces
/// (sequences nested to the right, no negation).
pub proof fn lemma_parse_printed(c: Cmd, ts: Seq<Spanned>)
    requires
        canonical(c),
        ts.len() == cmd_tokens(c).len(),
        forall|k: int| 0 <= k < ts.len() ==> (#[trigger] ts[k]).1 == cmd_tokens(c)[k],
    ensures
        p_seq(ts, 0) == Ok::<(Cmd, int), (int, Seq<Kind>)>((c, ts.len() as int)),
{
    assert forall|k: int| 0 <= k < cmd_tokens(c).len() implies #[trigger] ts[0 + k].1 == cmd_tokens(c)[k] by {
        assert(ts[k].1 == cmd_tokens(c)[k]);
    }
    lemma_seq(ts, 0, c);
}

} // verus!
