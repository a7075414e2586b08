//! What holds of every compilation.

use vstd::prelude::*;
use crate::ast::{block_size, Expr, Opcode, Statement};
use crate::error::Failure;
use crate::text::{decimal, lemma_decimal_injective};
use super::model::{
    branch_size, compile_block, compile_break, compile_declaration, compile_if, compile_loop,
    compile_read, compile_until, compile_write, is_innermost, lemma_is_innermost, loop_entry,
    lower, resolve, total, StateModel,
};
use super::pcode::{jump, label, label_name, load_value, mark_text, output, Mark};
use super::proofs::{
    lemma_block_framed, lemma_if_framed, lemma_initial_wf, lemma_loop_entry_wf,
    lemma_loop_framed, lemma_resolve_rebind, lemma_resolve_same_bindings, lemma_until_framed,
    same_bindings,
};
use super::scope::{declares, lemma_first_is_index, Entry, Variable};

verus! {

/// A block that compiles closes every scope and every loop that it opens:
/// the scopes and the loops that are open after it are those that were open
/// before it.
pub proof fn law_scopes_balanced(st: StateModel, block: Seq<Statement>)
    requires
        st.wf(),
        st.has_room(block_size(block)),
        st.scopes.len() > 0,
        compile_block(st, block).result is Ok,
    ensures
        compile_block(st, block).state.scopes.len() == st.scopes.len(),
        compile_block(st, block).state.loops == st.loops,
        compile_block(st, block).state.wf(),
{
    lemma_block_framed(st, block);
}

/// After a program that compiles only the outermost scope is open, and
/// closing it leaves no address taken.
pub proof fn law_no_storage_leaked(program: Seq<Statement>)
    requires
        block_size(program) <= u32::MAX,
        compile_block(StateModel::initial(), program).result is Ok,
    ensures
        compile_block(StateModel::initial(), program).state.scopes.len() == 1,
        compile_block(StateModel::initial(), program).state.exit_scope().scopes.len() == 0,
        compile_block(StateModel::initial(), program).state.exit_scope().next_address == 0,
{
    let start = StateModel::initial();
    lemma_initial_wf();
    lemma_block_framed(start, program);
    let end = compile_block(start, program).state;
    assert(end.scopes.drop_last() =~= Seq::<Seq<Entry>>::empty());
    reveal_with_fuel(total, 2);
}

/// A conditional or a loop that compiles gives back every address that
/// was taken inside it: each scope has the bindings that it had and no
/// other, and the next free address is where it was.
pub proof fn law_constructs_release_storage(
    st: StateModel,
    p: Expr,
    block: Seq<Statement>,
    other: Option<Seq<Statement>>,
)
    requires
        st.wf(),
        st.has_room(1 + block_size(block) + branch_size(other)),
    ensures
        compile_if(st, p, block, other).result is Ok ==> {
            &&& same_bindings(st.scopes, compile_if(st, p, block, other).state.scopes)
            &&& compile_if(st, p, block, other).state.next_address == st.next_address
        },
        compile_loop(st, block).result is Ok ==> {
            &&& same_bindings(st.scopes, compile_loop(st, block).state.scopes)
            &&& compile_loop(st, block).state.next_address == st.next_address
        },
        compile_until(st, p, block).result is Ok ==> {
            &&& same_bindings(st.scopes, compile_until(st, p, block).state.scopes)
            &&& compile_until(st, p, block).state.next_address == st.next_address
        },
{
    lemma_if_framed(st, p, block, other);
    lemma_loop_framed(st, block);
    lemma_until_framed(st, p, block);
}

/// A name that was just declared cannot be declared again in the same
/// scope, with or without an initializer.
pub proof fn law_redeclaration_rejected(
    st: StateModel,
    name: Seq<char>,
    first: Option<Box<Expr>>,
    second: Option<Box<Expr>>,
)
    requires
        compile_declaration(st, name, first).result is Ok,
    ensures
        compile_declaration(compile_declaration(st, name, first).state, name, second).result
            == Err::<Seq<char>, Failure>(Failure::DuplicateDeclaration(name)),
{
    let opened = st.with_scope();
    let declared = compile_declaration(st, name, first).state;
    assert(declared == opened.allocate(name, first is Some));
    let scope = declared.scopes.last();
    assert(scope[opened.scopes.last().len() as int].name == name);
    assert(declares(scope, name));
}

/// A name can be declared in a scope of its own whatever the scopes around
/// it bind. Inside, the name refers to the new variable, at the next free
/// address; once that scope is closed, the state is as it was, so the name
/// refers to what it referred to before, at its old address.
pub proof fn law_shadowing(st: StateModel, name: Seq<char>)
    requires
        st.wf(),
    ensures
        compile_declaration(st.enter_scope(), name, None).result is Ok,
        resolve(compile_declaration(st.enter_scope(), name, None).state.scopes, name) == Some(
            Variable { address: st.next_address as u32, initialized: false },
        ),
        compile_declaration(st.enter_scope(), name, None).state.exit_scope() == st,
{
    let inside = st.enter_scope();
    let declared = compile_declaration(inside, name, None).state;
    let top = inside.scopes.len() - 1;
    assert(inside.scopes.last() =~= Seq::<Entry>::empty());
    assert(!declares(inside.scopes.last(), name));
    assert(declared == inside.allocate(name, false));
    let variable = Variable { address: st.next_address as u32, initialized: false };
    let scope = declared.scopes[top];
    assert(scope =~= seq![Entry { name, variable }]);
    assert(scope[0].name == name);
    lemma_first_is_index(scope, name, 0);
    assert(is_innermost(declared.scopes, name, top));
    lemma_is_innermost(declared.scopes, name, top);
    assert(declared.exit_scope().scopes =~= st.scopes);
}

/// A `break` outside every loop is an error. Inside a loop, after any
/// statements of its body, it is a jump to the end of that loop, however
/// many loops are open around it.
pub proof fn law_break_leaves_innermost_loop(st: StateModel, before: Seq<Statement>)
    requires
        st.wf(),
        st.has_room(1 + block_size(before)),
        compile_block(loop_entry(st), before).result is Ok,
    ensures
        st.loops.len() == 0 ==> compile_break(st).result == Err::<Seq<char>, Failure>(
            Failure::BreakOutsideLoop,
        ),
        compile_break(compile_block(loop_entry(st), before).state).result == Ok::<
            Seq<char>,
            Failure,
        >(jump(Mark::Exit, st.next_label)),
{
    let entry = loop_entry(st);
    lemma_loop_entry_wf(st);
    lemma_block_framed(entry, before);
    assert(entry.loops.last() == st.next_label as u32);
}

/// Writing a variable that holds no value is an error; a `read` into it
/// gives it one, and writing it then loads it from its address.
pub proof fn law_read_initializes(st: StateModel, name: Seq<char>)
    requires
        resolve(st.scopes, name) is Some,
    ensures
        !resolve(st.scopes, name)->0.initialized ==> compile_write(st, name).result == Err::<
            Seq<char>,
            Failure,
        >(Failure::UninitializedVariable(name)),
        compile_read(st, name).result is Ok,
        compile_write(compile_read(st, name).state, name).result == Ok::<Seq<char>, Failure>(
            load_value(resolve(st.scopes, name)->0.address as nat) + output(),
        ),
{
    let v = resolve(st.scopes, name)->0;
    lemma_resolve_rebind(st.scopes, name, Variable { address: v.address, initialized: true });
}

/// Modulo has no instruction of its own. It is computed as
/// `a - trunc(a / b) * b`: the left operand twice, the right operand, the
/// division, the truncation, the right operand again, the multiplication
/// and the subtraction.
pub proof fn law_modulo_shape(scopes: Seq<Seq<Entry>>, a: Expr, b: Expr)
    requires
        lower(scopes, a) is Ok,
        lower(scopes, b) is Ok,
    ensures
        lower(scopes, Expr::Op(Box::new(a), Opcode::Mod, Box::new(b))) == Ok::<
            Seq<char>,
            Failure,
        >(
            lower(scopes, a)->Ok_0 + lower(scopes, a)->Ok_0 + lower(scopes, b)->Ok_0 + "div\n"@
                + "to int\n"@ + lower(scopes, b)->Ok_0 + "mul\n"@ + "sub\n"@,
        ),
{
}

/// Two conditionals one after the other carry different labels, and so
/// does every construct that takes a label after another: labels are taken
/// in increasing order.
pub proof fn law_sibling_labels_differ(
    st: StateModel,
    p: Expr,
    block: Seq<Statement>,
    other: Option<Seq<Statement>>,
)
    requires
        st.wf(),
        st.has_room(1 + block_size(block) + branch_size(other)),
    ensures
        compile_if(st, p, block, other).state.next_label > st.next_label,
        compile_loop(st, block).state.next_label > st.next_label,
        compile_until(st, p, block).state.next_label > st.next_label,
{
    lemma_if_framed(st, p, block, other);
    lemma_loop_framed(st, block);
    lemma_until_framed(st, p, block);
}

/// The loops that are open carry labels that differ from each other and
/// from every label that is still to be taken.
pub proof fn law_open_loops_labelled_apart(st: StateModel, a: int, b: int)
    requires
        st.wf(),
        0 <= a < st.loops.len(),
        0 <= b < st.loops.len(),
        a != b,
    ensures
        st.loops[a] != st.loops[b],
        st.loops[a] < st.next_label,
{
    if a < b {
        assert(st.loops[a] < st.loops[b]);
    } else {
        assert(st.loops[b] < st.loops[a]);
    }
}

/// Labels with different numbers have different names, so no jump can
/// reach the label of another construct.
pub proof fn law_label_names_differ(mark: Mark, a: nat, b: nat)
    requires
        a != b,
    ensures
        label_name(mark, a) != label_name(mark, b),
        label(mark, a) != label(mark, b),
{
    let prefix = mark_text(mark);
    if label_name(mark, a) == label_name(mark, b) {
        assert((prefix + decimal(a)).skip(prefix.len() as int) =~= decimal(a));
        assert((prefix + decimal(b)).skip(prefix.len() as int) =~= decimal(b));
        lemma_decimal_injective(a, b);
    }
    if label(mark, a) == label(mark, b) {
        let x = label_name(mark, a);
        let y = label_name(mark, b);
        let end = ":\n"@;
        assert(x.len() == y.len()) by {
            assert((x + end).len() == (y + end).len());
        }
        assert((x + end).take(x.len() as int) =~= x);
        assert((y + end).take(y.len() as int) =~= y);
    }
}

/// Whether `name` refers to something in `after` exactly if it does in
/// `before`, and then to a variable at the same address.
pub open spec fn outlives(
    before: Seq<Seq<Entry>>,
    after: Seq<Seq<Entry>>,
    name: Seq<char>,
) -> bool {
    &&& resolve(after, name) is Some <==> resolve(before, name) is Some
    &&& resolve(before, name) is Some ==> resolve(after, name)->0.address == resolve(
        before,
        name,
    )->0.address
}

/// What a name refers to outside a conditional or a loop is not touched by
/// what is declared inside: after the construct the name is visible if it
/// was before, and it refers to a variable at the same address.
pub proof fn law_bindings_outlive_constructs(
    st: StateModel,
    p: Expr,
    block: Seq<Statement>,
    other: Option<Seq<Statement>>,
    name: Seq<char>,
)
    requires
        st.wf(),
        st.has_room(1 + block_size(block) + branch_size(other)),
    ensures
        compile_if(st, p, block, other).result is Ok ==> outlives(
            st.scopes,
            compile_if(st, p, block, other).state.scopes,
            name,
        ),
        compile_loop(st, block).result is Ok ==> outlives(
            st.scopes,
            compile_loop(st, block).state.scopes,
            name,
        ),
        compile_until(st, p, block).result is Ok ==> outlives(
            st.scopes,
            compile_until(st, p, block).state.scopes,
            name,
        ),
{
    lemma_if_framed(st, p, block, other);
    lemma_loop_framed(st, block);
    lemma_until_framed(st, p, block);
    if compile_if(st, p, block, other).result is Ok {
        lemma_resolve_same_bindings(st.scopes, compile_if(st, p, block, other).state.scopes, name);
    }
    if compile_loop(st, block).result is Ok {
        lemma_resolve_same_bindings(st.scopes, compile_loop(st, block).state.scopes, name);
    }
    if compile_until(st, p, block).result is Ok {
        lemma_resolve_same_bindings(st.scopes, compile_until(st, p, block).state.scopes, name);
    }
}

} // verus!
