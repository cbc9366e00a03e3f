use vstd::prelude::*;
use crate::lexer::{chars_of, int_text, push_int, push_str_chars, string_of};
use crate::syntax::{Aexpr, Aop, Bexpr, Bop, Cmd, Cop};

verus! {

pub open spec fn aop_text(o: Aop) -> Seq<char> {
    match o {
        Aop::Add => seq!['+'],
        Aop::Sub => seq!['-'],
        Aop::Mul => seq!['*'],
    }
}

pub open spec fn cop_text(o: Cop) -> Seq<char> {
    match o {
        Cop::Eq => seq!['=', '?'],
        Cop::Lt => seq!['<', '?'],
    }
}

pub open spec fn bop_text(o: Bop) -> Seq<char> {
    match o {
        Bop::And => seq!['a', 'n', 'd'],
        Bop::Or => seq!['o', 'r'],
    }
}

/// `(l o r)`: a binary node written with its operands.
pub open spec fn binary_text(l: Seq<char>, o: Seq<char>, r: Seq<char>) -> Seq<char> {
    seq!['('] + l + seq![' '] + o + seq![' '] + r + seq![')']
}

/// An arithmetic expression in source syntax, every operation in parentheses.
pub open spec fn aexpr_text(e: Aexpr) -> Seq<char>
    decreases e,
{
    match e {
        Aexpr::Int(z) => int_text(z as int),
        Aexpr::Var(x) => x@,
        Aexpr::Op(o, e1, e2) => binary_text(aexpr_text(*e1), aop_text(o), aexpr_text(*e2)),
    }
}

/// A boolean expression in source syntax, every operation in parentheses.
pub open spec fn bexpr_text(b: Bexpr) -> Seq<char>
    decreases b,
{
    match b {
        Bexpr::Bool(v) => if v {
            seq!['t', 'r', 'u', 'e']
        } else {
            seq!['f', 'a', 'l', 's', 'e']
        },
        Bexpr::Not(b1) => seq!['(', 'n', 'o', 't', ' '] + bexpr_text(*b1) + seq![')'],
        Bexpr::Cop(o, e1, e2) => binary_text(aexpr_text(*e1), cop_text(o), aexpr_text(*e2)),
        Bexpr::Bop(o, b1, b2) => binary_text(bexpr_text(*b1), bop_text(o), bexpr_text(*b2)),
    }
}

/// `{`, a line break, the body, a line break and `}`.
pub open spec fn block_text(c: Seq<char>) -> Seq<char> {
    seq!['{', '\n'] + c + seq!['\n', '}']
}

/// A command in source syntax: one command per line, blocks in braces.
pub open spec fn cmd_text(c: Cmd) -> Seq<char>
    decreases c,
{
    match c {
        Cmd::Skip => seq!['s', 'k', 'i', 'p'],
        Cmd::Ass(x, e) => x@ + seq![' ', ':', '=', ' '] + aexpr_text(*e),
        Cmd::Print(e) => seq!['p', 'r', 'i', 'n', 't', ' '] + aexpr_text(*e),
        Cmd::Sequence(c1, c2) => cmd_text(*c1) + seq![';', '\n'] + cmd_text(*c2),
        Cmd::If(b, c1, c2) => seq!['i', 'f', ' '] + bexpr_text(*b) + seq![' '] + block_text(cmd_text(*c1))
            + seq![' ', 'e', 'l', 's', 'e', ' '] + block_text(cmd_text(*c2)),
        Cmd::While(b, c1) => seq!['w', 'h', 'i', 'l', 'e', ' '] + bexpr_text(*b) + seq![' '] + block_text(
            cmd_text(*c1),
        ),
    }
}

fn push_name(out: &mut Vec<char>, x: &String)
    ensures
        final(out)@ == old(out)@ + x@,
{
    let v = chars_of(x.as_str());
    push_str_chars(out, v.as_slice());
}

fn push_aop(out: &mut Vec<char>, o: Aop)
    ensures
        final(out)@ == old(out)@ + aop_text(o),
{
    match o {
        Aop::Add => push_str_chars(out, &['+']),
        Aop::Sub => push_str_chars(out, &['-']),
        Aop::Mul => push_str_chars(out, &['*']),
    }
}

fn push_cop(out: &mut Vec<char>, o: Cop)
    ensures
        final(out)@ == old(out)@ + cop_text(o),
{
    match o {
        Cop::Eq => push_str_chars(out, &['=', '?']),
        Cop::Lt => push_str_chars(out, &['<', '?']),
    }
}

fn push_bop(out: &mut Vec<char>, o: Bop)
    ensures
        final(out)@ == old(out)@ + bop_text(o),
{
    match o {
        Bop::And => push_str_chars(out, &['a', 'n', 'd']),
        Bop::Or => push_str_chars(out, &['o', 'r']),
    }
}

fn push_aexpr(out: &mut Vec<char>, e: &Aexpr)
    ensures
        final(out)@ == old(out)@ + aexpr_text(*e),
    decreases e,
{
    let ghost start = out@;
    match e {
        Aexpr::Int(z) => push_int(*z, out),
        Aexpr::Var(x) => push_name(out, x),
        Aexpr::Op(o, e1, e2) => {
            push_str_chars(out, &['(']);
            push_aexpr(out, e1);
            push_str_chars(out, &[' ']);
            push_aop(out, *o);
            push_str_chars(out, &[' ']);
            push_aexpr(out, e2);
            push_str_chars(out, &[')']);
            assert(out@ =~= start + aexpr_text(*e));
        },
    }
}

fn push_bexpr(out: &mut Vec<char>, b: &Bexpr)
    ensures
        final(out)@ == old(out)@ + bexpr_text(*b),
    decreases b,
{
    let ghost start = out@;
    match b {
        Bexpr::Bool(v) => if *v {
            push_str_chars(out, &['t', 'r', 'u', 'e'])
        } else {
            push_str_chars(out, &['f', 'a', 'l', 's', 'e'])
        },
        Bexpr::Not(b1) => {
            push_str_chars(out, &['(', 'n', 'o', 't', ' ']);
            push_bexpr(out, b1);
            push_str_chars(out, &[')']);
            assert(out@ =~= start + bexpr_text(*b));
        },
        Bexpr::Cop(o, e1, e2) => {
            push_str_chars(out, &['(']);
            push_aexpr(out, e1);
            push_str_chars(out, &[' ']);
            push_cop(out, *o);
            push_str_chars(out, &[' ']);
            push_aexpr(out, e2);
            push_str_chars(out, &[')']);
            assert(out@ =~= start + bexpr_text(*b));
        },
        Bexpr::Bop(o, b1, b2) => {
            push_str_chars(out, &['(']);
            push_bexpr(out, b1);
            push_str_chars(out, &[' ']);
            push_bop(out, *o);
            push_str_chars(out, &[' ']);
            push_bexpr(out, b2);
            push_str_chars(out, &[')']);
            assert(out@ =~= start + bexpr_text(*b));
        },
    }
}

fn push_cmd(out: &mut Vec<char>, c: &Cmd)
    ensures
        final(out)@ == old(out)@ + cmd_text(*c),
    decreases c,
{
    let ghost start = out@;
    match c {
        Cmd::Skip => push_str_chars(out, &['s', 'k', 'i', 'p']),
        Cmd::Ass(x, e) => {
            push_name(out, x);
            push_str_chars(out, &[' ', ':', '=', ' ']);
            push_aexpr(out, e);
            assert(out@ =~= start + cmd_text(*c));
        },
        Cmd::Print(e) => {
            push_str_chars(out, &['p', 'r', 'i', 'n', 't', ' ']);
            push_aexpr(out, e);
            assert(out@ =~= start + cmd_text(*c));
        },
        Cmd::Sequence(c1, c2) => {
            push_cmd(out, c1);
            push_str_chars(out, &[';', '\n']);
            push_cmd(out, c2);
            assert(out@ =~= start + cmd_text(*c));
        },
        Cmd::If(b, c1, c2) => {
            push_str_chars(out, &['i', 'f', ' ']);
            push_bexpr(out, b);
            push_str_chars(out, &[' ', '{', '\n']);
            push_cmd(out, c1);
            push_str_chars(out, &['\n', '}', ' ', 'e', 'l', 's', 'e', ' ', '{', '\n']);
            push_cmd(out, c2);
            push_str_chars(out, &['\n', '}']);
            assert(out@ =~= start + cmd_text(*c));
        },
        Cmd::While(b, c1) => {
            push_str_chars(out, &['w', 'h', 'i', 'l', 'e', ' ']);
            push_bexpr(out, b);
            push_str_chars(out, &[' ', '{', '\n']);
            push_cmd(out, c1);
            push_str_chars(out, &['\n', '}']);
            assert(out@ =~= start + cmd_text(*c));
        },
    }
}

impl Aexpr {
    /// The expression in source syntax.
    pub fn text(&self) -> (r: String)
        ensures
            r@ == aexpr_text(*self),
    {
        let mut out: Vec<char> = Vec::new();
        push_aexpr(&mut out, self);
        assert(out@ =~= aexpr_text(*self));
        string_of(&out)
    }
}

impl Bexpr {
    /// The expression in source syntax.
    pub fn text(&self) -> (r: String)
        ensures
            r@ == bexpr_text(*self),
    {
        let mut out: Vec<char> = Vec::new();
        push_bexpr(&mut out, self);
        assert(out@ =~= bexpr_text(*self));
        string_of(&out)
    }
}

impl Cmd {
    /// The program in source syntax.
    pub fn text(&self) -> (r: String)
        ensures
            r@ == cmd_text(*self),
    {
        let mut out: Vec<char> = Vec::new();
        push_cmd(&mut out, self);
        assert(out@ =~= cmd_text(*self));
        string_of(&out)
    }
}

} // verus!
