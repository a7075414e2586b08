//! What compiling means: the translation state as plain values, and for
//! each construct of the language the state it leaves and the text it emits.
//!
//! Nothing here runs. The functions of [`State`](super::State) are held to
//! these definitions.

use vstd::prelude::*;
use crate::ast::{block_size, expr_text, statement_size, Expr, Opcode, Statement};
use crate::error::Failure;
use crate::text::unquoted;
use super::pcode::{
    halt, jump, jump_if_false, label, load_address, load_value, mnemonic, modulo, output,
    push_number, push_text, read_input, store, Mark,
};
use super::scope::{bind, declares, distinct, find, lemma_index_of, Entry, Variable};

verus! {

/// Whether some open scope binds `name`.
pub open spec fn visible(scopes: Seq<Seq<Entry>>, name: Seq<char>) -> bool {
    exists|i: int| 0 <= i < scopes.len() && declares(#[trigger] scopes[i], name)
}

/// Whether scope `i` binds `name` and no scope inside it does.
pub open spec fn is_innermost(scopes: Seq<Seq<Entry>>, name: Seq<char>, i: int) -> bool {
    &&& 0 <= i < scopes.len()
    &&& declares(scopes[i], name)
    &&& forall|k: int| i < k < scopes.len() ==> !declares(#[trigger] scopes[k], name)
}

/// The innermost scope that binds a visible name. Scopes are numbered from
/// the outermost, which is 0.
pub open spec fn innermost(scopes: Seq<Seq<Entry>>, name: Seq<char>) -> int {
    choose|i: int| is_innermost(scopes, name, i)
}

/// The variable that `name` refers to: its binding in the innermost scope
/// that has one.
pub open spec fn resolve(scopes: Seq<Seq<Entry>>, name: Seq<char>) -> Option<Variable> {
    if visible(scopes, name) {
        find(scopes[innermost(scopes, name)], name)
    } else {
        None
    }
}

/// `scopes` with the variable that `name` refers to replaced.
pub open spec fn rebind(scopes: Seq<Seq<Entry>>, name: Seq<char>, variable: Variable) -> Seq<
    Seq<Entry>,
> {
    if visible(scopes, name) {
        let i = innermost(scopes, name);
        scopes.update(i, bind(scopes[i], name, variable))
    } else {
        scopes
    }
}

/// `scopes` with the variable that `name` refers to marked as holding a
/// value.
pub open spec fn initialize(scopes: Seq<Seq<Entry>>, name: Seq<char>) -> Seq<Seq<Entry>> {
    match resolve(scopes, name) {
        Some(v) => rebind(scopes, name, Variable { address: v.address, initialized: true }),
        None => scopes,
    }
}

proof fn lemma_innermost_above(scopes: Seq<Seq<Entry>>, name: Seq<char>, i: int)
    requires
        0 <= i < scopes.len(),
        declares(scopes[i], name),
    ensures
        exists|m: int| is_innermost(scopes, name, m),
    decreases scopes.len() - i,
{
    if exists|k: int| i < k < scopes.len() && declares(#[trigger] scopes[k], name) {
        let k = choose|k: int| i < k < scopes.len() && declares(#[trigger] scopes[k], name);
        lemma_innermost_above(scopes, name, k);
    } else {
        assert(is_innermost(scopes, name, i));
    }
}

/// A visible name has an innermost scope that binds it, and `innermost` is
/// that scope.
pub proof fn lemma_innermost(scopes: Seq<Seq<Entry>>, name: Seq<char>)
    requires
        visible(scopes, name),
    ensures
        is_innermost(scopes, name, innermost(scopes, name)),
{
    let i = choose|i: int| 0 <= i < scopes.len() && declares(#[trigger] scopes[i], name);
    lemma_innermost_above(scopes, name, i);
}

/// The innermost scope that binds a name is the only one `innermost` can be.
pub proof fn lemma_is_innermost(scopes: Seq<Seq<Entry>>, name: Seq<char>, i: int)
    requires
        is_innermost(scopes, name, i),
    ensures
        visible(scopes, name),
        innermost(scopes, name) == i,
        resolve(scopes, name) == find(scopes[i], name),
{
    let m = innermost(scopes, name);
    assert(is_innermost(scopes, name, m));
    if m < i {
        assert(!declares(scopes[i], name));
    }
    if i < m {
        assert(!declares(scopes[m], name));
    }
}

/// Replacing a variable by itself changes nothing.
pub proof fn lemma_rebind_same(scopes: Seq<Seq<Entry>>, name: Seq<char>, variable: Variable)
    requires
        resolve(scopes, name) == Some(variable),
    ensures
        rebind(scopes, name, variable) == scopes,
{
    lemma_innermost(scopes, name);
    let i = innermost(scopes, name);
    lemma_index_of(scopes[i], name);
    assert(bind(scopes[i], name, variable) =~= scopes[i]);
    assert(rebind(scopes, name, variable) =~= scopes);
}

/// The number of bindings in all of `scopes`.
pub open spec fn total(scopes: Seq<Seq<Entry>>) -> nat
    decreases scopes.len(),
{
    if scopes.len() == 0 {
        0
    } else {
        total(scopes.drop_last()) + scopes.last().len()
    }
}

/// The translation state: the open scopes from the outermost to the
/// innermost, the next free address, the next unused label, and the labels
/// of the loops that are open, the innermost last.
pub struct StateModel {
    pub scopes: Seq<Seq<Entry>>,
    pub next_address: nat,
    pub next_label: nat,
    pub loops: Seq<u32>,
}

impl StateModel {
    /// Addresses are handed out and taken back in the order of the scope
    /// stack: a binding's address is the number of bindings that were live
    /// when it was declared, and the next free address is the number of live
    /// bindings. The open loops carry increasing labels, all of them taken.
    pub open spec fn wf(self) -> bool {
        &&& forall|i: int| 0 <= i < self.scopes.len() ==> distinct(#[trigger] self.scopes[i])
        &&& forall|i: int, j: int|
            0 <= i < self.scopes.len() && 0 <= j < self.scopes[i].len() ==> (
            #[trigger] self.scopes[i][j]).variable.address == total(self.scopes.take(i)) + j
        &&& self.next_address == total(self.scopes)
        &&& self.next_address <= u32::MAX
        &&& self.next_label <= u32::MAX
        &&& forall|a: int, b: int|
            0 <= a < b < self.loops.len() ==> #[trigger] self.loops[a] < #[trigger] self.loops[b]
        &&& forall|a: int| 0 <= a < self.loops.len() ==> #[trigger] self.loops[a] < self.next_label
    }

    /// Whether `size` more addresses and `size` more labels can be handed
    /// out.
    pub open spec fn has_room(self, size: nat) -> bool {
        &&& self.next_address + size <= u32::MAX
        &&& self.next_label + size <= u32::MAX
    }

    /// The state that a compilation starts from: the outermost scope is
    /// open and empty.
    pub open spec fn initial() -> StateModel {
        StateModel {
            scopes: seq![Seq::<Entry>::empty()],
            next_address: 0,
            next_label: 0,
            loops: Seq::<u32>::empty(),
        }
    }

    /// Opens an empty scope.
    pub open spec fn enter_scope(self) -> StateModel {
        StateModel { scopes: self.scopes.push(Seq::<Entry>::empty()), ..self }
    }

    /// Closes the innermost scope and takes back the addresses of its
    /// bindings.
    pub open spec fn exit_scope(self) -> StateModel
        recommends
            self.scopes.len() > 0,
    {
        StateModel {
            scopes: self.scopes.drop_last(),
            next_address: (self.next_address - self.scopes.last().len()) as nat,
            ..self
        }
    }

    /// Takes the next label for a construct.
    pub open spec fn take_label(self) -> StateModel {
        StateModel { next_label: self.next_label + 1, ..self }
    }

    /// Makes `k` the label that a `break` leaves.
    pub open spec fn enter_loop(self, k: u32) -> StateModel {
        StateModel { loops: self.loops.push(k), ..self }
    }

    /// Forgets the innermost open loop.
    pub open spec fn exit_loop(self) -> StateModel
        recommends
            self.loops.len() > 0,
    {
        StateModel { loops: self.loops.drop_last(), ..self }
    }

    /// Opens a scope if none is open.
    pub open spec fn with_scope(self) -> StateModel {
        if self.scopes.len() == 0 {
            self.enter_scope()
        } else {
            self
        }
    }

    /// Binds `name` in the innermost scope to the next free address.
    pub open spec fn allocate(self, name: Seq<char>, initialized: bool) -> StateModel
        recommends
            self.scopes.len() > 0,
    {
        let variable = Variable { address: self.next_address as u32, initialized };
        StateModel {
            scopes: self.scopes.update(
                self.scopes.len() - 1,
                bind(self.scopes.last(), name, variable),
            ),
            next_address: self.next_address + 1,
            ..self
        }
    }

    /// The state once the variable that `name` refers to holds a value.
    pub open spec fn initialized(self, name: Seq<char>) -> StateModel {
        StateModel { scopes: initialize(self.scopes, name), ..self }
    }
}

/// The state and the text, or the failure, that compiling something leaves.
/// After a failure the state is as it was where the failure was met.
pub struct Outcome {
    pub state: StateModel,
    pub result: Result<Seq<char>, Failure>,
}

/// `o` with `prefix` before its text, if it has one.
pub open spec fn after(prefix: Seq<char>, o: Outcome) -> Outcome {
    Outcome {
        state: o.state,
        result: match o.result {
            Ok(text) => Ok(prefix + text),
            Err(f) => Err(f),
        },
    }
}

/// The two operands of a binary node, then what the operator adds. The
/// left operand's failure comes first.
pub open spec fn lower_binary(
    left: Result<Seq<char>, Failure>,
    op: Opcode,
    right: Result<Seq<char>, Failure>,
) -> Result<Seq<char>, Failure> {
    match left {
        Err(f) => Err(f),
        Ok(a) => match right {
            Err(f) => Err(f),
            Ok(b) => Ok(
                if op == Opcode::Mod {
                    modulo(a, b)
                } else {
                    a + b + mnemonic(op)
                },
            ),
        },
    }
}

/// The instructions that leave the value of `e` on the stack: operands
/// before their operator. A literal is pushed as it is written; an
/// identifier must be declared and hold a value.
pub open spec fn lower(scopes: Seq<Seq<Entry>>, e: Expr) -> Result<Seq<char>, Failure>
    decreases e,
{
    match e {
        Expr::Id(id) => match resolve(scopes, id@) {
            None => Err(Failure::UndeclaredVariable(id@)),
            Some(v) => if v.initialized {
                Ok(load_value(v.address as nat))
            } else {
                Err(Failure::UninitializedVariable(id@))
            },
        },
        Expr::Op(l, op, r) => lower_binary(lower(scopes, *l), op, lower(scopes, *r)),
        Expr::Predicate(l, op, r) => lower_binary(lower(scopes, *l), op, lower(scopes, *r)),
        _ => Ok(push_number(expr_text(e))),
    }
}

/// `let name;` or `let name = init;`. The initializer is evaluated before
/// `name` is bound, so it cannot refer to the new variable.
pub open spec fn compile_declaration(
    st: StateModel,
    name: Seq<char>,
    init: Option<Box<Expr>>,
) -> Outcome {
    let st = st.with_scope();
    if declares(st.scopes.last(), name) {
        Outcome { state: st, result: Err(Failure::DuplicateDeclaration(name)) }
    } else {
        match init {
            None => Outcome { state: st.allocate(name, false), result: Ok(Seq::empty()) },
            Some(e) => match lower(st.scopes, *e) {
                Err(f) => Outcome { state: st, result: Err(f) },
                Ok(value) => Outcome {
                    state: st.allocate(name, true),
                    result: Ok(load_address(st.next_address) + value + store()),
                },
            },
        }
    }
}

/// `name = e;`
pub open spec fn compile_assignment(st: StateModel, name: Seq<char>, e: Expr) -> Outcome {
    match resolve(st.scopes, name) {
        None => Outcome { state: st, result: Err(Failure::UndeclaredVariable(name)) },
        Some(v) => match lower(st.scopes, e) {
            Err(f) => Outcome { state: st, result: Err(f) },
            Ok(value) => Outcome {
                state: st.initialized(name),
                result: Ok(load_address(v.address as nat) + value + store()),
            },
        },
    }
}

/// `read name;`
pub open spec fn compile_read(st: StateModel, name: Seq<char>) -> Outcome {
    match resolve(st.scopes, name) {
        None => Outcome { state: st, result: Err(Failure::UndeclaredVariable(name)) },
        Some(v) => Outcome {
            state: st.initialized(name),
            result: Ok(load_address(v.address as nat) + read_input() + store()),
        },
    }
}

/// `write name;`
pub open spec fn compile_write(st: StateModel, name: Seq<char>) -> Outcome {
    Outcome {
        state: st,
        result: match resolve(st.scopes, name) {
            None => Err(Failure::UndeclaredVariable(name)),
            Some(v) => if v.initialized {
                Ok(load_value(v.address as nat) + output())
            } else {
                Err(Failure::UninitializedVariable(name))
            },
        },
    }
}

/// `write 'text';`, the literal given with or without its quotes.
pub open spec fn compile_write_literal(st: StateModel, literal: Seq<char>) -> Outcome {
    Outcome { state: st, result: Ok(push_text(unquoted(literal, '\'')) + output()) }
}

/// `break;`: a jump to the end of the innermost open loop.
pub open spec fn compile_break(st: StateModel) -> Outcome {
    Outcome {
        state: st,
        result: if st.loops.len() == 0 {
            Err(Failure::BreakOutsideLoop)
        } else {
            Ok(jump(Mark::Exit, st.loops.last() as nat))
        },
    }
}

/// The size of an else branch, if there is one.
pub open spec fn branch_size(other: Option<Seq<Statement>>) -> nat {
    match other {
        Some(block) => block_size(block),
        None => 0,
    }
}

/// The statements of an else branch, if there is one.
pub open spec fn branch_of(other: Option<Vec<Statement>>) -> Option<Seq<Statement>> {
    match other {
        Some(block) => Some(block@),
        None => None,
    }
}

/// One statement, of any kind.
pub open spec fn compile_statement(st: StateModel, s: Statement) -> Outcome
    decreases statement_size(s), 0nat,
{
    match s {
        Statement::Declaration(id, init) => compile_declaration(st, id@, init),
        Statement::Assignment(id, e) => compile_assignment(st, id@, *e),
        Statement::Read(id) => compile_read(st, id@),
        Statement::WriteId(id) => compile_write(st, id@),
        Statement::WriteLiteral(literal) => compile_write_literal(st, literal@),
        Statement::If(p, block, other) => compile_if(st, *p, block@, branch_of(other)),
        Statement::Until(p, block) => compile_until(st, *p, block@),
        Statement::Loop(block) => compile_loop(st, block@),
        Statement::Break => compile_break(st),
    }
}

/// The statements of a block one after the other, each from the state that
/// the one before it left, up to the first that fails.
pub open spec fn compile_block(st: StateModel, block: Seq<Statement>) -> Outcome
    decreases block_size(block), 1nat,
    via compile_block_decreases
{
    if block.len() == 0 {
        Outcome { state: st, result: Ok(Seq::empty()) }
    } else {
        let first = compile_statement(st, block[0]);
        match first.result {
            Err(_) => first,
            Ok(text) => after(text, compile_block(first.state, block.drop_first())),
        }
    }
}

#[via_fn]
proof fn compile_block_decreases(st: StateModel, block: Seq<Statement>) {
    if block.len() > 0 {
        assert(statement_size(block[0]) >= 1);
    }
}

/// `if p { block }` or `if p { block } else { other }`, with the label `k`
/// that the construct takes: the condition; a jump to `Fk`, or to `Ek`
/// where there is no else branch, if it is false; the block in a scope of
/// its own; then, where there is an else branch, a jump to `Ek`, `Fk:` and
/// the branch in a scope of its own; and `Ek:`.
pub open spec fn compile_if(
    st: StateModel,
    p: Expr,
    block: Seq<Statement>,
    other: Option<Seq<Statement>>,
) -> Outcome
    decreases block_size(block) + branch_size(other), 2nat,
{
    let k = st.next_label;
    let st = st.take_label();
    match lower(st.scopes, p) {
        Err(f) => Outcome { state: st, result: Err(f) },
        Ok(condition) => {
            let head = condition + jump_if_false(
                if other is Some {
                    Mark::Else
                } else {
                    Mark::Exit
                },
                k,
            );
            let taken = compile_block(st.enter_scope(), block);
            match taken.result {
                Err(_) => taken,
                Ok(body) => {
                    let st = taken.state.exit_scope();
                    match other {
                        None => Outcome {
                            state: st,
                            result: Ok(head + body + label(Mark::Exit, k)),
                        },
                        Some(branch) => {
                            let skipped = compile_block(st.enter_scope(), branch);
                            match skipped.result {
                                Err(_) => skipped,
                                Ok(alternative) => Outcome {
                                    state: skipped.state.exit_scope(),
                                    result: Ok(
                                        head + body + jump(Mark::Exit, k) + label(Mark::Else, k)
                                            + alternative + label(Mark::Exit, k),
                                    ),
                                },
                            }
                        },
                    }
                },
            }
        },
    }
}

/// The state in which the body of a loop with the label `k` is compiled.
pub open spec fn loop_entry(st: StateModel) -> StateModel {
    st.enter_loop(st.next_label as u32).take_label().enter_scope()
}

/// `loop { block }`, with the label `k` that the construct takes: `Lk:`,
/// the block in a scope of its own, a jump to `Lk`, and `Ek:`, which only a
/// `break` reaches.
pub open spec fn compile_loop(st: StateModel, block: Seq<Statement>) -> Outcome
    decreases block_size(block), 2nat,
{
    let k = st.next_label;
    let body = compile_block(loop_entry(st), block);
    match body.result {
        Err(_) => body,
        Ok(text) => Outcome {
            state: body.state.exit_scope().exit_loop(),
            result: Ok(label(Mark::Start, k) + text + jump(Mark::Start, k) + label(Mark::Exit, k)),
        },
    }
}

/// `do { block } until p;`, with the label `k` that the construct takes:
/// `Lk:`, the block, the condition evaluated in the block's scope, a jump
/// to `Lk` if it is false, and `Ek:`.
pub open spec fn compile_until(st: StateModel, p: Expr, block: Seq<Statement>) -> Outcome
    decreases block_size(block), 2nat,
{
    let k = st.next_label;
    let body = compile_block(loop_entry(st), block);
    match body.result {
        Err(_) => body,
        Ok(text) => match lower(body.state.scopes, p) {
            Err(f) => Outcome { state: body.state, result: Err(f) },
            Ok(condition) => Outcome {
                state: body.state.exit_scope().exit_loop(),
                result: Ok(
                    label(Mark::Start, k) + text + condition + jump_if_false(Mark::Start, k)
                        + label(Mark::Exit, k),
                ),
            },
        },
    }
}

/// A whole program: its statements from the initial state, then the halt
/// instruction.
pub open spec fn compile_program(program: Seq<Statement>) -> Result<Seq<char>, Failure> {
    match compile_block(StateModel::initial(), program).result {
        Ok(text) => Ok(text + halt()),
        Err(f) => Err(f),
    }
}

} // verus!
