//! The statement and expression trees that the code generator consumes.
//!
//! Operator precedence and associativity are already resolved in a tree: the
//! nesting of [`Expr::Op`] nodes is the order of evaluation.

use vstd::prelude::*;
use crate::text::{push_signed_decimal, signed_decimal};

verus! {

/// The name of a variable.
pub type Identifier = String;

/// A statement. A block is the list of its statements; an `If` has its
/// else branch last, if it has one.
#[derive(Debug)]
pub enum Statement {
    Declaration(Identifier, Option<Box<Expr>>),
    Assignment(Identifier, Box<Expr>),
    Read(Identifier),
    If(Box<Expr>, Vec<Statement>, Option<Vec<Statement>>),
    Until(Box<Expr>, Vec<Statement>),
    WriteLiteral(String),
    WriteId(Identifier),
    Loop(Vec<Statement>),
    Break,
}

/// An expression. A numeric literal is a [`Expr::Number`]: a sign and a
/// magnitude, the magnitude being an [`Expr::Integer`] or an [`Expr::Float`].
/// A float keeps the text of its magnitude as it was written.
#[derive(Debug)]
pub enum Expr {
    Number(bool, Box<Expr>),
    Integer(i32),
    Float(String),
    Id(Identifier),
    Op(Box<Expr>, Opcode, Box<Expr>),
    Predicate(Box<Expr>, Opcode, Box<Expr>),
}

/// The operators of the language, arithmetic, comparing and logical.
#[derive(Debug, Clone, Copy, PartialEq, Eq, Structural)]
pub enum Opcode {
    Add,
    Sub,
    Mul,
    Div,
    Exp,
    Mod,
    And,
    Or,
    Not,
    Eq,
    Neq,
    Grt,
    Let,
    Geq,
    Leq,
}

/// The source notation of an operator.
pub open spec fn opcode_text(op: Opcode) -> Seq<char> {
    match op {
        Opcode::Add => "+"@,
        Opcode::Sub => "-"@,
        Opcode::Mul => "*"@,
        Opcode::Div => "/"@,
        Opcode::Mod => "%"@,
        Opcode::Exp => "^"@,
        Opcode::And => "and"@,
        Opcode::Or => "or"@,
        Opcode::Not => "!"@,
        Opcode::Eq => "=="@,
        Opcode::Neq => "!="@,
        Opcode::Grt => ">"@,
        Opcode::Let => "<"@,
        Opcode::Geq => ">="@,
        Opcode::Leq => "<="@,
    }
}

/// The source notation of an expression: literals and identifiers as they
/// are, every binary node fully parenthesised.
pub open spec fn expr_text(e: Expr) -> Seq<char>
    decreases e,
{
    match e {
        Expr::Number(negative, magnitude) => (if negative {
            "-"@
        } else {
            ""@
        }) + expr_text(*magnitude),
        Expr::Integer(n) => signed_decimal(n as int),
        Expr::Float(written) => written@,
        Expr::Id(id) => id@,
        Expr::Op(l, op, r) => "("@ + expr_text(*l) + " "@ + opcode_text(op) + " "@ + expr_text(*r)
            + ")"@,
        Expr::Predicate(l, op, r) => "("@ + expr_text(*l) + " "@ + opcode_text(op) + " "@
            + expr_text(*r) + ")"@,
    }
}

/// Whether every operator that `e` applies has an instruction sequence.
/// Exponentiation has none. The magnitude of a literal is not applied.
pub open spec fn expr_lowerable(e: Expr) -> bool
    decreases e,
{
    match e {
        Expr::Op(l, op, r) => op != Opcode::Exp && expr_lowerable(*l) && expr_lowerable(*r),
        Expr::Predicate(l, op, r) => op != Opcode::Exp && expr_lowerable(*l) && expr_lowerable(
            *r,
        ),
        _ => true,
    }
}

/// Whether every expression that `s` evaluates, at any depth, is lowerable.
pub open spec fn statement_lowerable(s: Statement) -> bool
    decreases s, 0nat,
{
    match s {
        Statement::Declaration(_, Some(e)) => expr_lowerable(*e),
        Statement::Assignment(_, e) => expr_lowerable(*e),
        Statement::If(p, block, None) => expr_lowerable(*p) && block_lowerable(block@),
        Statement::If(p, block, Some(other)) => expr_lowerable(*p) && block_lowerable(block@)
            && block_lowerable(other@),
        Statement::Until(p, block) => expr_lowerable(*p) && block_lowerable(block@),
        Statement::Loop(block) => block_lowerable(block@),
        _ => true,
    }
}

/// Whether every statement of `block` is lowerable.
pub open spec fn block_lowerable(block: Seq<Statement>) -> bool
    decreases block, 1nat,
{
    block.len() > 0 ==> statement_lowerable(block[0]) && block_lowerable(block.drop_first())
}

/// The number of statements in `s`, itself and the nested ones.
pub open spec fn statement_size(s: Statement) -> nat
    decreases s, 0nat,
{
    match s {
        Statement::If(_, block, None) => 1 + block_size(block@),
        Statement::If(_, block, Some(other)) => 1 + block_size(block@) + block_size(other@),
        Statement::Until(_, block) => 1 + block_size(block@),
        Statement::Loop(block) => 1 + block_size(block@),
        _ => 1,
    }
}

/// The number of statements in `block`, the nested ones included.
pub open spec fn block_size(block: Seq<Statement>) -> nat
    decreases block, 1nat,
{
    if block.len() == 0 {
        0
    } else {
        statement_size(block[0]) + block_size(block.drop_first())
    }
}

impl Opcode {
    /// The operator as it is written in the source.
    pub fn text(&self) -> (r: String)
        ensures
            r@ == opcode_text(*self),
    {
        let symbol: &'static str = match self {
            Opcode::Add => "+",
            Opcode::Sub => "-",
            Opcode::Mul => "*",
            Opcode::Div => "/",
            Opcode::Mod => "%",
            Opcode::Exp => "^",
            Opcode::And => "and",
            Opcode::Or => "or",
            Opcode::Not => "!",
            Opcode::Eq => "==",
            Opcode::Neq => "!=",
            Opcode::Grt => ">",
            Opcode::Let => "<",
            Opcode::Geq => ">=",
            Opcode::Leq => "<=",
        };
        symbol.to_owned()
    }
}

impl Expr {
    /// The expression as it is written in the source, fully parenthesised.
    pub fn text(&self) -> (r: String)
        ensures
            r@ == expr_text(*self),
        decreases self,
    {
        let mut out: String = String::new();
        match self {
            Expr::Number(negative, magnitude) => {
                if *negative {
                    out.append("-");
                }
                proof {
                    reveal_strlit("");
                }
                let inner: String = magnitude.text();
                out.append(inner.as_str());
            },
            Expr::Integer(n) => {
                push_signed_decimal(&mut out, *n as i64);
            },
            Expr::Float(written) => {
                out.append(written.as_str());
            },
            Expr::Id(id) => {
                out.append(id.as_str());
            },
            Expr::Op(l, op, r) => {
                let left: String = l.text();
                let right: String = r.text();
                Self::push_binary(&mut out, &left, *op, &right);
            },
            Expr::Predicate(l, op, r) => {
                let left: String = l.text();
                let right: String = r.text();
                Self::push_binary(&mut out, &left, *op, &right);
            },
        }
        out
    }

    fn push_binary(out: &mut String, left: &String, op: Opcode, right: &String)
        ensures
            final(out)@ == old(out)@ + ("("@ + left@ + " "@ + opcode_text(op) + " "@ + right@
                + ")"@),
    {
        let symbol: String = op.text();
        out.append("(");
        out.append(left.as_str());
        out.append(" ");
        out.append(symbol.as_str());
        out.append(" ");
        out.append(right.as_str());
        out.append(")");
    }

    /// Whether no operator that is applied is an exponentiation.
    pub fn is_lowerable(&self) -> (r: bool)
        ensures
            r == expr_lowerable(*self),
        decreases self,
    {
        match self {
            Expr::Op(l, op, r) => *op != Opcode::Exp && l.is_lowerable() && r.is_lowerable(),
            Expr::Predicate(l, op, r) => *op != Opcode::Exp && l.is_lowerable()
                && r.is_lowerable(),
            _ => true,
        }
    }
}

/// What is left of `budget` after `size`, if it is enough.
pub open spec fn left_of(budget: u32, size: nat) -> Option<u32> {
    if size <= budget {
        Some((budget - size) as u32)
    } else {
        None
    }
}

impl Statement {
    /// Whether every expression that the statement evaluates is lowerable.
    pub fn is_lowerable(&self) -> (r: bool)
        ensures
            r == statement_lowerable(*self),
        decreases statement_size(*self), 0nat,
    {
        match self {
            Statement::Declaration(_, Some(e)) => e.is_lowerable(),
            Statement::Assignment(_, e) => e.is_lowerable(),
            Statement::If(p, block, None) => p.is_lowerable() && block_is_lowerable(block),
            Statement::If(p, block, Some(other)) => p.is_lowerable() && block_is_lowerable(block)
                && block_is_lowerable(other),
            Statement::Until(p, block) => p.is_lowerable() && block_is_lowerable(block),
            Statement::Loop(block) => block_is_lowerable(block),
            _ => true,
        }
    }

    /// What is left of `budget` after the statements of `self`, if it is
    /// enough for them.
    pub fn spend(&self, budget: u32) -> (r: Option<u32>)
        ensures
            r == left_of(budget, statement_size(*self)),
        decreases statement_size(*self), 0nat,
    {
        if budget == 0 {
            return None;
        }
        let rest: u32 = budget - 1;
        match self {
            Statement::If(_, block, None) => block_spend(block, rest),
            Statement::If(_, block, Some(other)) => match block_spend(block, rest) {
                Some(left) => block_spend(other, left),
                None => None,
            },
            Statement::Until(_, block) => block_spend(block, rest),
            Statement::Loop(block) => block_spend(block, rest),
            _ => Some(rest),
        }
    }
}

/// Whether every expression that the statements of `block` evaluate is
/// lowerable.
pub fn block_is_lowerable(block: &Vec<Statement>) -> (r: bool)
    ensures
        r == block_lowerable(block@),
    decreases block_size(block@), 1nat,
{
    let mut i: usize = 0;
    assert(block@.skip(0) =~= block@);
    while i < block.len()
        invariant
            i <= block.len(),
            block_lowerable(block@) == block_lowerable(block@.skip(i as int)),
            block_size(block@.skip(i as int)) <= block_size(block@),
        decreases block.len() - i,
    {
        let ghost rest = block@.skip(i as int);
        proof {
            assert(rest.drop_first() =~= block@.skip(i + 1));
        }
        if !block[i].is_lowerable() {
            return false;
        }
        i = i + 1;
    }
    true
}

/// What is left of `budget` after the statements of `block`, if it is
/// enough for them.
pub fn block_spend(block: &Vec<Statement>, budget: u32) -> (r: Option<u32>)
    ensures
        r == left_of(budget, block_size(block@)),
    decreases block_size(block@), 1nat,
{
    let mut left: u32 = budget;
    let mut i: usize = 0;
    assert(block@.skip(0) =~= block@);
    while i < block.len()
        invariant
            i <= block.len(),
            left <= budget,
            block_size(block@.skip(i as int)) <= block_size(block@),
            block_size(block@) == (budget - left) + block_size(block@.skip(i as int)),
        decreases block.len() - i,
    {
        let ghost rest = block@.skip(i as int);
        proof {
            assert(rest.drop_first() =~= block@.skip(i + 1));
        }
        match block[i].spend(left) {
            Some(less) => {
                left = less;
            },
            None => {
                return None;
            },
        }
        i = i + 1;
    }
    Some(left)
}

} // verus!
