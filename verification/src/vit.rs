//! The code generator: one pass over the statement tree, which appends to
//! the instruction stream and never goes back over it.

use vstd::prelude::*;
use crate::ast::{
    block_is_lowerable, block_lowerable, block_size, block_spend, expr_lowerable,
    statement_lowerable, statement_size, Expr, Statement,
};
use crate::error::{result_view, CompileError};
use crate::text::strip_quotes;
use self::model::{
    after, branch_of, branch_size, compile_assignment, compile_block, compile_break,
    compile_declaration, compile_if, compile_loop, compile_program, compile_read,
    compile_statement, compile_until, compile_write, compile_write_literal, lemma_rebind_same,
    loop_entry, StateModel,
};
use self::pcode::{
    emit_jump, emit_jump_if_false, emit_label, emit_load_address, emit_load_value,
    emit_push_text, Mark,
};
use self::proofs::{
    lemma_allocate_wf, lemma_block_framed, lemma_enter_scope_wf, lemma_exit_scope_wf,
    lemma_initial_wf, lemma_initialized_wf, lemma_statement_framed,
};
use self::scope::{Entry, Scope, Variable};

pub mod expressions;
pub mod laws;
pub mod model;
pub mod pcode;
pub mod proofs;
pub mod scope;

verus! {

/// The scopes of a stack as the contracts see them, the outermost first.
pub open spec fn scopes_of(stack: Seq<Scope>) -> Seq<Seq<Entry>> {
    stack.map_values(|scope: Scope| scope@)
}

/// The translation state, which one compilation owns and threads through
/// the whole pass.
pub struct State {
    stack: Vec<Scope>,
    current_address: u32,
    label_count: u32,
    labels: Vec<u32>,
}

impl State {
    /// The state as plain values.
    pub closed spec fn view(&self) -> StateModel {
        StateModel {
            scopes: scopes_of(self.stack@),
            next_address: self.current_address as nat,
            next_label: self.label_count as nat,
            loops: self.labels@,
        }
    }

    /// A state with the outermost scope open and nothing in it.
    pub fn new() -> (r: Self)
        ensures
            r@ == StateModel::initial(),
            r@.wf(),
    {
        let mut stack: Vec<Scope> = Vec::new();
        stack.push(Scope::new());
        let r = State { stack, current_address: 0, label_count: 0, labels: Vec::new() };
        proof {
            assert(r@.scopes =~= StateModel::initial().scopes);
            lemma_initial_wf();
        }
        r
    }

    /// Opens a scope.
    pub fn push_scope(&mut self)
        requires
            old(self)@.wf(),
        ensures
            final(self)@ == old(self)@.enter_scope(),
            final(self)@.wf(),
    {
        self.stack.push(Scope::new());
        proof {
            assert(self@.scopes =~= old(self)@.enter_scope().scopes);
            lemma_enter_scope_wf(old(self)@);
        }
    }

    /// Closes the innermost scope and takes back the addresses of its
    /// bindings, all at once.
    pub fn pop_scope(&mut self)
        requires
            old(self)@.wf(),
            old(self)@.scopes.len() > 0,
        ensures
            final(self)@ == old(self)@.exit_scope(),
            final(self)@.wf(),
    {
        proof {
            lemma_exit_scope_wf(self@);
        }
        if let Some(scope) = self.stack.pop() {
            self.current_address = self.current_address - scope.len() as u32;
        }
        assert(self@.scopes =~= old(self)@.exit_scope().scopes);
    }

    /// `let id;` or `let id = e;`
    pub fn declare(&mut self, id: String, e: Option<Box<Expr>>) -> (r: Result<
        String,
        CompileError,
    >)
        requires
            old(self)@.wf(),
            old(self)@.next_address < u32::MAX,
            e matches Some(init) ==> expr_lowerable(*init),
        ensures
            final(self)@ == compile_declaration(old(self)@, id@, e).state,
            result_view(r) == compile_declaration(old(self)@, id@, e).result,
            final(self)@.wf(),
    {
        if self.stack.is_empty() {
            self.push_scope();
        }
        let ghost opened = self@;
        let last: usize = self.stack.len() - 1;
        if self.stack[last].position(&id).is_some() {
            return Err(CompileError::DuplicateDeclaration(id));
        }
        let mut result: String = String::new();
        let initialized: bool = e.is_some();
        if let Some(init) = e {
            emit_load_address(&mut result, self.current_address);
            match Self::parse_expression(&mut self.stack, *init, &mut result) {
                Err(error) => {
                    return Err(error);
                },
                Ok(()) => {},
            }
            result.append("sto\n");
        }
        let variable = Variable { address: self.current_address, initialized };
        self.stack[last].insert(id, variable);
        self.current_address = self.current_address + 1;
        proof {
            assert(self@.scopes =~= opened.allocate(id@, initialized).scopes);
            lemma_allocate_wf(opened, id@, initialized);
        }
        Ok(result)
    }

    /// `id = e;`
    pub fn assign(&mut self, id: String, expr: Expr) -> (r: Result<String, CompileError>)
        requires
            old(self)@.wf(),
            expr_lowerable(expr),
        ensures
            final(self)@ == compile_assignment(old(self)@, id@, expr).state,
            result_view(r) == compile_assignment(old(self)@, id@, expr).result,
            final(self)@.wf(),
    {
        let address: u32 = match Self::get_address(&mut self.stack, &id) {
            Err(error) => {
                return Err(error);
            },
            Ok(variable) => {
                proof {
                    lemma_rebind_same(old(self)@.scopes, id@, *variable);
                }
                variable.address
            },
        };
        let mut result: String = String::new();
        emit_load_address(&mut result, address);
        match Self::parse_expression(&mut self.stack, expr, &mut result) {
            Err(error) => {
                return Err(error);
            },
            Ok(()) => {},
        }
        result.append("sto\n");
        match Self::get_address(&mut self.stack, &id) {
            Ok(variable) => {
                variable.initialized = true;
            },
            Err(_) => {},
        }
        proof {
            lemma_initialized_wf(old(self)@, id@);
        }
        Ok(result)
    }

    /// `read id;`
    pub fn read(&mut self, id: String) -> (r: Result<String, CompileError>)
        requires
            old(self)@.wf(),
        ensures
            final(self)@ == compile_read(old(self)@, id@).state,
            result_view(r) == compile_read(old(self)@, id@).result,
            final(self)@.wf(),
    {
        let address: u32 = match Self::get_address(&mut self.stack, &id) {
            Err(error) => {
                return Err(error);
            },
            Ok(variable) => {
                variable.initialized = true;
                variable.address
            },
        };
        let mut result: String = String::new();
        emit_load_address(&mut result, address);
        result.append("rd\n");
        result.append("sto\n");
        proof {
            lemma_initialized_wf(old(self)@, id@);
        }
        Ok(result)
    }

    /// `write id;`
    pub fn write(&mut self, id: String) -> (r: Result<String, CompileError>)
        ensures
            final(self)@ == compile_write(old(self)@, id@).state,
            result_view(r) == compile_write(old(self)@, id@).result,
    {
        let variable: Variable = match Self::get_address(&mut self.stack, &id) {
            Err(error) => {
                return Err(error);
            },
            Ok(variable) => {
                proof {
                    lemma_rebind_same(old(self)@.scopes, id@, *variable);
                }
                *variable
            },
        };
        if !variable.initialized {
            return Err(CompileError::UninitializedVariable(id));
        }
        let mut result: String = String::new();
        emit_load_value(&mut result, variable.address);
        result.append("wri\n");
        Ok(result)
    }

    /// `write 'text';`
    pub fn write_string(&mut self, string: String) -> (r: Result<String, CompileError>)
        ensures
            final(self)@ == compile_write_literal(old(self)@, string@).state,
            result_view(r) == compile_write_literal(old(self)@, string@).result,
    {
        let content: String = strip_quotes(string.as_str(), '\'');
        let mut result: String = String::new();
        emit_push_text(&mut result, content.as_str());
        result.append("wri\n");
        Ok(result)
    }

    /// `break;`
    pub fn break_loop(&mut self) -> (r: Result<String, CompileError>)
        ensures
            final(self)@ == compile_break(old(self)@).state,
            result_view(r) == compile_break(old(self)@).result,
    {
        if self.labels.is_empty() {
            return Err(CompileError::BreakOutsideLoop);
        }
        let mut result: String = String::new();
        emit_jump(&mut result, Mark::Exit, self.labels[self.labels.len() - 1]);
        Ok(result)
    }

    /// Takes the next label.
    fn new_label(&mut self) -> (k: u32)
        requires
            old(self)@.next_label < u32::MAX,
        ensures
            k == old(self)@.next_label,
            final(self)@ == old(self)@.take_label(),
    {
        let k: u32 = self.label_count;
        self.label_count = self.label_count + 1;
        k
    }

    /// `if p { .. }` or `if p { .. } else { .. }`
    pub fn if_statement(
        &mut self,
        predicate: Expr,
        if_block: Vec<Statement>,
        else_block: Option<Vec<Statement>>,
    ) -> (r: Result<String, CompileError>)
        requires
            old(self)@.wf(),
            old(self)@.has_room(1 + block_size(if_block@) + branch_size(branch_of(else_block))),
            expr_lowerable(predicate),
            block_lowerable(if_block@),
            else_block matches Some(other) ==> block_lowerable(other@),
        ensures
            final(self)@ == compile_if(
                old(self)@,
                predicate,
                if_block@,
                branch_of(else_block),
            ).state,
            result_view(r) == compile_if(
                old(self)@,
                predicate,
                if_block@,
                branch_of(else_block),
            ).result,
            final(self)@.wf(),
        decreases block_size(if_block@) + branch_size(branch_of(else_block)), 2nat,
    {
        let mut result: String = String::new();
        let label: u32 = self.new_label();
        let ghost labelled = self@;
        match Self::parse_expression(&mut self.stack, predicate, &mut result) {
            Err(error) => {
                return Err(error);
            },
            Ok(()) => {},
        }
        // Where the predicate is false, go to the else branch, or past the block.
        emit_jump_if_false(
            &mut result,
            if else_block.is_some() {
                Mark::Else
            } else {
                Mark::Exit
            },
            label,
        );

        self.push_scope();
        proof {
            lemma_block_framed(labelled.enter_scope(), if_block@);
        }
        match self.run(if_block) {
            Err(error) => {
                return Err(error);
            },
            Ok(body) => {
                result.append(body.as_str());
            },
        }
        self.pop_scope();
        let ghost closed = self@;

        if let Some(other) = else_block {
            // The block is done: go past the else branch.
            emit_jump(&mut result, Mark::Exit, label);
            self.push_scope();
            emit_label(&mut result, Mark::Else, label);
            proof {
                lemma_block_framed(closed.enter_scope(), other@);
            }
            match self.run(other) {
                Err(error) => {
                    return Err(error);
                },
                Ok(alternative) => {
                    result.append(alternative.as_str());
                },
            }
            self.pop_scope();
        }
        emit_label(&mut result, Mark::Exit, label);
        Ok(result)
    }

    /// Opens a loop: takes its label, makes it the target of `break`, and
    /// opens the scope of its body.
    fn open_loop(&mut self) -> (k: u32)
        requires
            old(self)@.wf(),
            old(self)@.next_label < u32::MAX,
        ensures
            k == old(self)@.next_label,
            final(self)@ == loop_entry(old(self)@),
            final(self)@.wf(),
    {
        let k: u32 = self.label_count;
        self.labels.push(k);
        self.label_count = self.label_count + 1;
        assert(self@ == old(self)@.enter_loop(old(self)@.next_label as u32).take_label());
        self.push_scope();
        k
    }

    /// Closes the loop that was opened last, and the scope of its body.
    fn close_loop(&mut self)
        requires
            old(self)@.wf(),
            old(self)@.scopes.len() > 0,
            old(self)@.loops.len() > 0,
        ensures
            final(self)@ == old(self)@.exit_scope().exit_loop(),
            final(self)@.wf(),
    {
        self.pop_scope();
        self.labels.pop();
    }

    /// `do { .. } until p;`
    pub fn do_until(&mut self, expr: Expr, block: Vec<Statement>) -> (r: Result<
        String,
        CompileError,
    >)
        requires
            old(self)@.wf(),
            old(self)@.has_room(1 + block_size(block@)),
            expr_lowerable(expr),
            block_lowerable(block@),
        ensures
            final(self)@ == compile_until(old(self)@, expr, block@).state,
            result_view(r) == compile_until(old(self)@, expr, block@).result,
            final(self)@.wf(),
        decreases block_size(block@), 2nat,
    {
        let mut result: String = String::new();
        let label: u32 = self.open_loop();
        proof {
            lemma_block_framed(loop_entry(old(self)@), block@);
        }
        emit_label(&mut result, Mark::Start, label);
        match self.run(block) {
            Err(error) => {
                return Err(error);
            },
            Ok(body) => {
                result.append(body.as_str());
            },
        }
        match Self::parse_expression(&mut self.stack, expr, &mut result) {
            Err(error) => {
                return Err(error);
            },
            Ok(()) => {},
        }
        // Where the condition is false, go round again.
        emit_jump_if_false(&mut result, Mark::Start, label);
        emit_label(&mut result, Mark::Exit, label);
        self.close_loop();
        Ok(result)
    }

    /// `loop { .. }`
    pub fn u_loop(&mut self, block: Vec<Statement>) -> (r: Result<String, CompileError>)
        requires
            old(self)@.wf(),
            old(self)@.has_room(1 + block_size(block@)),
            block_lowerable(block@),
        ensures
            final(self)@ == compile_loop(old(self)@, block@).state,
            result_view(r) == compile_loop(old(self)@, block@).result,
            final(self)@.wf(),
        decreases block_size(block@), 2nat,
    {
        let mut result: String = String::new();
        let label: u32 = self.open_loop();
        proof {
            lemma_block_framed(loop_entry(old(self)@), block@);
        }
        emit_label(&mut result, Mark::Start, label);
        match self.run(block) {
            Err(error) => {
                return Err(error);
            },
            Ok(body) => {
                result.append(body.as_str());
            },
        }
        emit_jump(&mut result, Mark::Start, label);
        // Only a `break` gets here.
        emit_label(&mut result, Mark::Exit, label);
        self.close_loop();
        Ok(result)
    }

    /// One statement, of any kind.
    pub fn parse_statement(&mut self, statement: Statement) -> (r: Result<String, CompileError>)
        requires
            old(self)@.wf(),
            old(self)@.has_room(statement_size(statement)),
            statement_lowerable(statement),
        ensures
            final(self)@ == compile_statement(old(self)@, statement).state,
            result_view(r) == compile_statement(old(self)@, statement).result,
            final(self)@.wf(),
        decreases statement_size(statement), 0nat,
    {
        match statement {
            Statement::Declaration(id, expr) => self.declare(id, expr),
            Statement::Assignment(id, expr) => self.assign(id, *expr),
            Statement::Read(id) => self.read(id),
            Statement::WriteId(id) => self.write(id),
            Statement::WriteLiteral(string) => self.write_string(string),
            Statement::If(predicate, block, else_block) => self.if_statement(
                *predicate,
                block,
                else_block,
            ),
            Statement::Loop(block) => self.u_loop(block),
            Statement::Break => self.break_loop(),
            Statement::Until(expr, block) => self.do_until(*expr, block),
        }
    }

    /// The statements of `program` in order, up to the first that fails.
    pub fn run(&mut self, program: Vec<Statement>) -> (r: Result<String, CompileError>)
        requires
            old(self)@.wf(),
            old(self)@.has_room(block_size(program@)),
            block_lowerable(program@),
        ensures
            final(self)@ == compile_block(old(self)@, program@).state,
            result_view(r) == compile_block(old(self)@, program@).result,
            final(self)@.wf(),
        decreases block_size(program@), 1nat,
    {
        let mut result: String = String::new();
        proof {
            assert(program@.skip(0) =~= program@);
        }
        for statement in it: program
            invariant
                it.seq() == program@,
                self@.wf(),
                self@.has_room(block_size(program@.skip(it.index() as int))),
                block_lowerable(program@.skip(it.index() as int)),
                block_size(program@.skip(it.index() as int)) <= block_size(program@),
                compile_block(old(self)@, program@) == after(
                    result@,
                    compile_block(self@, program@.skip(it.index() as int)),
                ),
        {
            let ghost rest = program@.skip(it.index() as int);
            let ghost before = self@;
            let ghost emitted = result@;
            proof {
                assert(rest.drop_first() =~= program@.skip(it.index() + 1));
                lemma_statement_framed(before, statement);
            }
            match self.parse_statement(statement) {
                Err(error) => {
                    return Err(error);
                },
                Ok(text) => {
                    result.append(text.as_str());
                    proof {
                        let tail = compile_block(self@, rest.drop_first());
                        assert(after(emitted, after(text@, tail)) =~= after(
                            emitted + text@,
                            tail,
                        )) by {
                            if let Ok(more) = tail.result {
                                assert(emitted + (text@ + more) =~= emitted + text@ + more);
                            }
                        }
                    }
                },
            }
        }
        Ok(result)
    }

    /// The open scopes, the outermost first.
    pub fn stack(&self) -> (r: &Vec<Scope>)
        ensures
            scopes_of(r@) == self@.scopes,
    {
        &self.stack
    }

    /// The address that the next declaration gets.
    pub fn current_address(&self) -> (r: u32)
        ensures
            r == self@.next_address,
    {
        self.current_address
    }
}

/// Whether `build` takes `program`: it applies no operator that has no
/// instruction sequence, and it has no more statements than there are labels.
pub open spec fn compilable(program: Seq<Statement>) -> bool {
    &&& block_lowerable(program)
    &&& block_size(program) <= u32::MAX
}

/// Whether `build` takes `program`.
pub fn can_build(program: &Vec<Statement>) -> (r: bool)
    ensures
        r == compilable(program@),
{
    block_is_lowerable(program) && block_spend(program, u32::MAX).is_some()
}

/// Compiles a program: the instructions of its statements in order and the
/// halt instruction, or the first error.
pub fn build(program: Vec<Statement>) -> (r: Result<String, CompileError>)
    requires
        compilable(program@),
    ensures
        result_view(r) == compile_program(program@),
{
    let mut state: State = State::new();
    match state.run(program) {
        Err(error) => Err(error),
        Ok(mut result) => {
            result.append("stp\n");
            Ok(result)
        },
    }
}

} // verus!
