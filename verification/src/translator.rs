//! A translator that outlives one program: it compiles fragment after
//! fragment against the same state and leaves the halt instruction to its
//! caller.

use vstd::prelude::*;
use crate::ast::{
    block_lowerable, block_size, statement_lowerable, statement_size, Statement,
};
use crate::error::{result_view, CompileError};
use crate::vit::model::{
    compile_block, compile_break, compile_read, compile_statement, compile_write,
    compile_write_literal, StateModel,
};
use crate::vit::scope::Scope;
use crate::vit::{scopes_of, State};

verus! {

/// Generates instructions from the trees that a parser hands over.
pub struct Translator {
    state: State,
}

impl Translator {
    /// The state of the translator as plain values.
    pub closed spec fn view(&self) -> StateModel {
        self.state@
    }

    /// A translator with the outermost scope open and nothing in it.
    pub fn new() -> (r: Self)
        ensures
            r@ == StateModel::initial(),
            r@.wf(),
    {
        Translator { state: State::new() }
    }

    /// The statements of `program` in order, up to the first that fails.
    pub fn run(&mut self, program: Vec<Statement>) -> (r: Result<String, CompileError>)
        requires
            old(self)@.wf(),
            old(self)@.has_room(block_size(program@)),
            block_lowerable(program@),
        ensures
            final(self)@ == compile_block(old(self)@, program@).state,
            result_view(r) == compile_block(old(self)@, program@).result,
            final(self)@.wf(),
    {
        self.state.run(program)
    }

    /// One statement, of any kind.
    pub fn parse_statement(&mut self, statement: Statement) -> (r: Result<String, CompileError>)
        requires
            old(self)@.wf(),
            old(self)@.has_room(statement_size(statement)),
            statement_lowerable(statement),
        ensures
            final(self)@ == compile_statement(old(self)@, statement).state,
            result_view(r) == compile_statement(old(self)@, statement).result,
            final(self)@.wf(),
    {
        self.state.parse_statement(statement)
    }

    /// `read id;`
    pub fn read(&mut self, id: String) -> (r: Result<String, CompileError>)
        requires
            old(self)@.wf(),
        ensures
            final(self)@ == compile_read(old(self)@, id@).state,
            result_view(r) == compile_read(old(self)@, id@).result,
            final(self)@.wf(),
    {
        self.state.read(id)
    }

    /// `break;`
    pub fn break_loop(&mut self) -> (r: Result<String, CompileError>)
        ensures
            final(self)@ == compile_break(old(self)@).state,
            result_view(r) == compile_break(old(self)@).result,
    {
        self.state.break_loop()
    }

    /// `write id;`
    pub fn write(&mut self, id: String) -> (r: Result<String, CompileError>)
        ensures
            final(self)@ == compile_write(old(self)@, id@).state,
            result_view(r) == compile_write(old(self)@, id@).result,
    {
        self.state.write(id)
    }

    /// `write 'text';`
    pub fn write_string(&mut self, string: String) -> (r: Result<String, CompileError>)
        ensures
            final(self)@ == compile_write_literal(old(self)@, string@).state,
            result_view(r) == compile_write_literal(old(self)@, string@).result,
    {
        self.state.write_string(string)
    }

    /// Opens a scope.
    pub fn push_scope(&mut self)
        requires
            old(self)@.wf(),
        ensures
            final(self)@ == old(self)@.enter_scope(),
            final(self)@.wf(),
    {
        self.state.push_scope()
    }

    /// Closes the innermost scope and takes back the addresses of its
    /// bindings.
    pub fn pop_scope(&mut self)
        requires
            old(self)@.wf(),
            old(self)@.scopes.len() > 0,
        ensures
            final(self)@ == old(self)@.exit_scope(),
            final(self)@.wf(),
    {
        self.state.pop_scope()
    }

    /// The open scopes, the outermost first.
    pub fn stack(&self) -> (r: &Vec<Scope>)
        ensures
            scopes_of(r@) == self@.scopes,
    {
        self.state.stack()
    }

    /// The address that the next declaration gets.
    pub fn current_address(&self) -> (r: u32)
        ensures
            r == self@.next_address,
    {
        self.state.current_address()
    }
}

} // verus!
