//! Expressions: from a tree to postfix instructions.

use vstd::prelude::*;
use crate::ast::{expr_lowerable, Expr, Opcode};
use crate::error::{CompileError, Failure};
use super::model::{lemma_is_innermost, lemma_rebind_same, lower, rebind, resolve};
use super::pcode::{emit_load_value, emit_push_number, mnemonic, native};
use super::scope::{declares, Scope, Variable};
use super::{scopes_of, State};

verus! {

impl State {
    /// The variable that `id` refers to, to read or to change: its binding
    /// in the innermost scope that has one.
    pub fn get_address<'a>(stack: &'a mut Vec<Scope>, id: &String) -> (r: Result<
        &'a mut Variable,
        CompileError,
    >)
        ensures
            match r {
                Ok(variable) => {
                    &&& resolve(scopes_of(old(stack)@), id@) == Some(*variable)
                    &&& scopes_of(final(stack)@) == rebind(
                        scopes_of(old(stack)@),
                        id@,
                        *final(variable),
                    )
                },
                Err(e) => {
                    &&& resolve(scopes_of(old(stack)@), id@) is None
                    &&& e@ == Failure::UndeclaredVariable(id@)
                    &&& scopes_of(final(stack)@) == scopes_of(old(stack)@)
                },
            },
    {
        let ghost scopes = scopes_of(stack@);
        let mut i: usize = stack.len();
        while i > 0
            invariant
                i <= stack.len(),
                scopes == scopes_of(stack@),
                scopes == scopes_of(old(stack)@),
                forall|k: int| i <= k < scopes.len() ==> !declares(#[trigger] scopes[k], id@),
            decreases i,
        {
            i = i - 1;
            if stack[i].position(id).is_some() {
                proof {
                    lemma_is_innermost(scopes, id@, i as int);
                }
                match stack[i].get_mut(id) {
                    Some(variable) => {
                        return Ok(variable);
                    },
                    // A scope that has a place for `id` has a variable for it.
                    None => {
                        return Err(CompileError::UndeclaredVariable(id.clone()));
                    },
                }
            }
        }
        Err(CompileError::UndeclaredVariable(id.clone()))
    }

    /// Appends to `result` the instructions that leave the value of `expr`
    /// on the stack. Where `expr` cannot be lowered, `result` is left as it
    /// was.
    pub fn parse_expression(stack: &mut Vec<Scope>, expr: Expr, result: &mut String) -> (r: Result<
        (),
        CompileError,
    >)
        requires
            expr_lowerable(expr),
        ensures
            scopes_of(final(stack)@) == scopes_of(old(stack)@),
            match r {
                Ok(()) => lower(scopes_of(old(stack)@), expr) matches Ok(code) && final(result)@
                    == old(result)@ + code,
                Err(e) => lower(scopes_of(old(stack)@), expr) == Err::<Seq<char>, Failure>(e@)
                    && final(result)@ == old(result)@,
            },
        decreases expr,
    {
        let ghost scopes = scopes_of(stack@);
        match expr {
            Expr::Id(id) => {
                match Self::get_address(stack, &id) {
                    Err(e) => Err(e),
                    Ok(variable) => {
                        let found: Variable = *variable;
                        proof {
                            lemma_rebind_same(scopes, id@, found);
                        }
                        if !found.initialized {
                            return Err(CompileError::UninitializedVariable(id));
                        }
                        emit_load_value(result, found.address);
                        Ok(())
                    },
                }
            },
            Expr::Op(l, op, r) | Expr::Predicate(l, op, r) => {
                let mut left: String = String::new();
                match Self::parse_expression(stack, *l, &mut left) {
                    Err(e) => {
                        return Err(e);
                    },
                    Ok(()) => {},
                }
                let mut right: String = String::new();
                match Self::parse_expression(stack, *r, &mut right) {
                    Err(e) => {
                        return Err(e);
                    },
                    Ok(()) => {},
                }
                if op == Opcode::Mod {
                    result.append(left.as_str());
                    result.append(left.as_str());
                    result.append(right.as_str());
                    result.append(Self::parse_op(Opcode::Div));
                    result.append("to int\n");
                    result.append(right.as_str());
                    result.append(Self::parse_op(Opcode::Mul));
                    result.append(Self::parse_op(Opcode::Sub));
                } else {
                    result.append(left.as_str());
                    result.append(right.as_str());
                    result.append(Self::parse_op(op));
                }
                Ok(())
            },
            literal => {
                let written: String = literal.text();
                emit_push_number(result, written.as_str());
                Ok(())
            },
        }
    }

    /// The instruction of an operator that has one.
    pub fn parse_op(op: Opcode) -> (r: &'static str)
        requires
            native(op),
        ensures
            r@ == mnemonic(op),
    {
        match op {
            Opcode::Add => "add\n",
            Opcode::Sub => "sub\n",
            Opcode::Mul => "mul\n",
            Opcode::Div => "div\n",
            Opcode::Eq => "equ\n",
            Opcode::Neq => "neq\n",
            Opcode::Grt => "grt\n",
            Opcode::Geq => "gte\n",
            Opcode::Let => "let\n",
            Opcode::Leq => "lte\n",
            Opcode::And => "and\n",
            Opcode::Or => "or\n",
            Opcode::Not => "not\n",
            _ => "",
        }
    }
}

} // verus!
