//! Why the state stays well formed, and what a compilation can have done
//! to it.

use vstd::prelude::*;
use crate::ast::{block_size, statement_size, Expr, Statement};
use super::model::{
    branch_of, branch_size, compile_block, compile_declaration, compile_if, compile_loop,
    compile_statement, compile_until, innermost, is_innermost, lemma_innermost,
    lemma_is_innermost, loop_entry, lower, rebind, resolve, total, visible, Outcome, StateModel,
};
use super::scope::{
    declares, distinct, index_of, is_first, lemma_first_is_index, lemma_index_of, Entry,
    Variable,
};

verus! {

/// The number of bindings depends on the sizes of the scopes alone.
pub proof fn lemma_total_by_lengths(a: Seq<Seq<Entry>>, b: Seq<Seq<Entry>>)
    requires
        a.len() == b.len(),
        forall|i: int| 0 <= i < a.len() ==> (#[trigger] a[i]).len() == (#[trigger] b[i]).len(),
    ensures
        total(a) == total(b),
    decreases a.len(),
{
    if a.len() > 0 {
        assert(a.last().len() == b.last().len());
        lemma_total_by_lengths(a.drop_last(), b.drop_last());
    }
}

/// Opening a scope binds nothing.
pub proof fn lemma_total_push(scopes: Seq<Seq<Entry>>, scope: Seq<Entry>)
    ensures
        total(scopes.push(scope)) == total(scopes) + scope.len(),
{
    assert(scopes.push(scope).drop_last() =~= scopes);
}

/// The state that a compilation starts from is well formed.
pub proof fn lemma_initial_wf()
    ensures
        StateModel::initial().wf(),
{
    let start = StateModel::initial();
    reveal_with_fuel(total, 2);
    assert(start.scopes.drop_last() =~= Seq::<Seq<Entry>>::empty());
}

/// Opening a scope keeps the state well formed.
pub proof fn lemma_enter_scope_wf(st: StateModel)
    requires
        st.wf(),
    ensures
        st.enter_scope().wf(),
{
    let after = st.enter_scope();
    lemma_total_push(st.scopes, Seq::<Entry>::empty());
    assert forall|i: int, j: int|
        0 <= i < after.scopes.len() && 0 <= j < after.scopes[i].len() implies (
    #[trigger] after.scopes[i][j]).variable.address == total(after.scopes.take(i)) + j by {
        assert(after.scopes.take(i) =~= st.scopes.take(i));
        assert(after.scopes[i] == st.scopes[i]);
    }
    assert forall|i: int| 0 <= i < after.scopes.len() implies distinct(
        #[trigger] after.scopes[i],
    ) by {
        if i < st.scopes.len() {
            assert(after.scopes[i] == st.scopes[i]);
        }
    }
}

/// Closing a scope keeps the state well formed, and the scope has no more
/// bindings than there are addresses taken.
pub proof fn lemma_exit_scope_wf(st: StateModel)
    requires
        st.wf(),
        st.scopes.len() > 0,
    ensures
        st.exit_scope().wf(),
        st.scopes.last().len() <= st.next_address,
{
    let after = st.exit_scope();
    assert forall|i: int, j: int|
        0 <= i < after.scopes.len() && 0 <= j < after.scopes[i].len() implies (
    #[trigger] after.scopes[i][j]).variable.address == total(after.scopes.take(i)) + j by {
        assert(after.scopes.take(i) =~= st.scopes.take(i));
        assert(after.scopes[i] == st.scopes[i]);
    }
    assert forall|i: int| 0 <= i < after.scopes.len() implies distinct(
        #[trigger] after.scopes[i],
    ) by {
        assert(after.scopes[i] == st.scopes[i]);
    }
}

/// Binding a name that the innermost scope does not bind keeps the state
/// well formed.
pub proof fn lemma_allocate_wf(st: StateModel, name: Seq<char>, initialized: bool)
    requires
        st.wf(),
        st.scopes.len() > 0,
        !declares(st.scopes.last(), name),
        st.next_address < u32::MAX,
    ensures
        st.allocate(name, initialized).wf(),
{
    let after = st.allocate(name, initialized);
    let last = st.scopes.len() - 1;
    let entry = Entry { name, variable: Variable { address: st.next_address as u32, initialized } };
    assert(after.scopes[last] == st.scopes[last].push(entry));
    assert(after.scopes.drop_last() =~= st.scopes.drop_last());
    assert(st.scopes.take(last) =~= st.scopes.drop_last());
    assert forall|i: int, j: int|
        0 <= i < after.scopes.len() && 0 <= j < after.scopes[i].len() implies (
    #[trigger] after.scopes[i][j]).variable.address == total(after.scopes.take(i)) + j by {
        assert(after.scopes.take(i) =~= st.scopes.take(i));
        if i < last {
            assert(after.scopes[i] == st.scopes[i]);
        } else if j < st.scopes[last].len() {
            assert(after.scopes[i][j] == st.scopes[i][j]);
        }
    }
    assert forall|i: int| 0 <= i < after.scopes.len() implies distinct(
        #[trigger] after.scopes[i],
    ) by {
        if i < last {
            assert(after.scopes[i] == st.scopes[i]);
        } else {
            let old_scope = st.scopes[last];
            let new_scope = after.scopes[last];
            assert(distinct(old_scope));
            assert forall|a: int, b: int| 0 <= a < b < new_scope.len() implies (
            #[trigger] new_scope[a]).name != (#[trigger] new_scope[b]).name by {
                if b < old_scope.len() {
                    assert(new_scope[a] == old_scope[a]);
                    assert(new_scope[b] == old_scope[b]);
                } else {
                    assert(new_scope[a] == old_scope[a]);
                    assert(old_scope[a].name != name);
                }
            }
        }
    }
}

/// Replacing the variable of a visible name by one at the same address
/// changes no name, no address and no scope's size.
pub proof fn lemma_rebind_shape(scopes: Seq<Seq<Entry>>, name: Seq<char>, variable: Variable)
    requires
        resolve(scopes, name) matches Some(v) && v.address == variable.address,
    ensures
        rebind(scopes, name, variable).len() == scopes.len(),
        forall|i: int|
            0 <= i < scopes.len() ==> (#[trigger] rebind(scopes, name, variable)[i]).len()
                == scopes[i].len(),
        forall|i: int, j: int|
            0 <= i < scopes.len() && 0 <= j < scopes[i].len() ==> {
                &&& (#[trigger] rebind(scopes, name, variable)[i][j]).name == scopes[i][j].name
                &&& rebind(scopes, name, variable)[i][j].variable.address
                    == scopes[i][j].variable.address
            },
{
    lemma_innermost(scopes, name);
    let m = innermost(scopes, name);
    lemma_index_of(scopes[m], name);
}

/// Giving a variable a value keeps the state well formed and every
/// binding where it was.
pub proof fn lemma_initialized_wf(st: StateModel, name: Seq<char>)
    requires
        st.wf(),
    ensures
        st.initialized(name).wf(),
        same_bindings(st.scopes, st.initialized(name).scopes),
{
    let after = st.initialized(name);
    match resolve(st.scopes, name) {
        None => {},
        Some(v) => {
            let variable = Variable { address: v.address, initialized: true };
            lemma_rebind_shape(st.scopes, name, variable);
            lemma_total_by_lengths(after.scopes, st.scopes);
            assert forall|i: int, j: int|
                0 <= i < after.scopes.len() && 0 <= j < after.scopes[i].len() implies (
            #[trigger] after.scopes[i][j]).variable.address == total(after.scopes.take(i))
                + j by {
                lemma_total_by_lengths(after.scopes.take(i), st.scopes.take(i));
                assert(st.scopes[i][j].variable.address == total(st.scopes.take(i)) + j);
            }
            assert forall|i: int| 0 <= i < after.scopes.len() implies distinct(
                #[trigger] after.scopes[i],
            ) by {
                assert(distinct(st.scopes[i]));
                let old_scope = st.scopes[i];
                let new_scope = after.scopes[i];
                assert forall|a: int, b: int| 0 <= a < b < new_scope.len() implies (
                #[trigger] new_scope[a]).name != (#[trigger] new_scope[b]).name by {
                    assert(new_scope[a].name == old_scope[a].name);
                    assert(new_scope[b].name == old_scope[b].name);
                }
            }
        },
    }
}

/// Opening a loop keeps the state well formed.
pub proof fn lemma_loop_entry_wf(st: StateModel)
    requires
        st.wf(),
        st.next_label < u32::MAX,
    ensures
        loop_entry(st).wf(),
{
    let labelled = st.enter_loop(st.next_label as u32).take_label();
    assert(labelled.wf());
    lemma_enter_scope_wf(labelled);
}

/// Closing a loop keeps the state well formed.
pub proof fn lemma_exit_loop_wf(st: StateModel)
    requires
        st.wf(),
        st.loops.len() > 0,
    ensures
        st.exit_loop().wf(),
{
}

/// What compiling something of `size` statements from `st` can have done
/// to the state, whether it failed or not: the state is well formed, at most
/// `size` labels and addresses were taken, and no scope or loop that was
/// open has been closed. Where it did not fail, the loops that are open are
/// those that were, and so are the scopes, but for the outermost scope if
/// none was open.
pub open spec fn framed(st: StateModel, size: nat, o: Outcome) -> bool {
    &&& o.state.wf()
    &&& st.next_label <= o.state.next_label <= st.next_label + size
    &&& o.state.next_address <= st.next_address + size
    &&& o.state.scopes.len() >= st.scopes.len()
    &&& o.state.loops.len() >= st.loops.len()
    &&& o.result is Ok ==> {
        &&& o.state.loops == st.loops
        &&& st.scopes.len() > 0 ==> o.state.scopes.len() == st.scopes.len()
        &&& st.scopes.len() == 0 ==> o.state.scopes.len() <= 1
        &&& grown(st.scopes, o.state.scopes)
    }
}

/// Whether `after` binds every name that `before` binds, at the same
/// place and to the same address.
pub open spec fn extends(before: Seq<Entry>, after: Seq<Entry>) -> bool {
    &&& before.len() <= after.len()
    &&& forall|j: int|
        0 <= j < before.len() ==> {
            &&& (#[trigger] after[j]).name == before[j].name
            &&& after[j].variable.address == before[j].variable.address
        }
}

/// Whether `after` has the scopes of `before` with the bindings that they
/// had, and no more, but for the innermost, which may have more.
pub open spec fn grown(before: Seq<Seq<Entry>>, after: Seq<Seq<Entry>>) -> bool {
    &&& before.len() <= after.len()
    &&& forall|i: int| 0 <= i < before.len() ==> extends(before[i], #[trigger] after[i])
    &&& forall|i: int|
        0 <= i < before.len() - 1 ==> (#[trigger] after[i]).len() == before[i].len()
}

/// Whether `after` has the scopes of `before` and no other, with the
/// bindings that they had and no more. Only whether a variable holds a
/// value may differ.
pub open spec fn same_bindings(before: Seq<Seq<Entry>>, after: Seq<Seq<Entry>>) -> bool {
    &&& before.len() == after.len()
    &&& forall|i: int| 0 <= i < before.len() ==> extends(before[i], #[trigger] after[i])
    &&& forall|i: int| 0 <= i < before.len() ==> (#[trigger] after[i]).len() == before[i].len()
}

/// A block that is compiled in a scope of its own and does not fail
/// leaves, once that scope is closed, every scope with as many bindings as
/// it had, and the next free address where it was.
pub proof fn lemma_scope_closed(st: StateModel, size: nat, o: Outcome)
    requires
        st.wf(),
        framed(st.enter_scope(), size, o),
        o.result is Ok,
    ensures
        o.state.exit_scope().wf(),
        same_bindings(st.scopes, o.state.exit_scope().scopes),
        o.state.exit_scope().next_address == st.next_address,
{
    let closed = o.state.exit_scope();
    lemma_exit_scope_wf(o.state);
    assert forall|i: int| 0 <= i < st.scopes.len() implies (#[trigger] closed.scopes[i]).len()
        == st.scopes[i].len() by {
        assert(closed.scopes[i] == o.state.scopes[i]);
        assert(st.enter_scope().scopes[i] == st.scopes[i]);
    }
    lemma_total_by_lengths(st.scopes, closed.scopes);
}

/// What a statement can have done to the state.
pub proof fn lemma_statement_framed(st: StateModel, s: Statement)
    requires
        st.wf(),
        st.has_room(statement_size(s)),
    ensures
        framed(st, statement_size(s), compile_statement(st, s)),
    decreases statement_size(s), 0nat,
{
    match s {
        Statement::Declaration(id, init) => {
            let opened = st.with_scope();
            if st.scopes.len() == 0 {
                lemma_enter_scope_wf(st);
            }
            if !declares(opened.scopes.last(), id@) {
                lemma_allocate_wf(opened, id@, init is Some);
            }
            let o = compile_declaration(st, id@, init);
            assert(o.state == opened || o.state == opened.allocate(id@, init is Some));
            assert(grown(st.scopes, o.state.scopes));
        },
        Statement::Assignment(id, e) => {
            lemma_initialized_wf(st, id@);
        },
        Statement::Read(id) => {
            lemma_initialized_wf(st, id@);
        },
        Statement::If(p, block, other) => {
            lemma_if_framed(st, *p, block@, branch_of(other));
        },
        Statement::Until(p, block) => {
            lemma_until_framed(st, *p, block@);
        },
        Statement::Loop(block) => {
            lemma_loop_framed(st, block@);
        },
        _ => {},
    }
}

/// What a block can have done to the state.
pub proof fn lemma_block_framed(st: StateModel, block: Seq<Statement>)
    requires
        st.wf(),
        st.has_room(block_size(block)),
    ensures
        framed(st, block_size(block), compile_block(st, block)),
    decreases block_size(block), 1nat,
{
    if block.len() > 0 {
        assert(statement_size(block[0]) >= 1);
        lemma_statement_framed(st, block[0]);
        let first = compile_statement(st, block[0]);
        if first.result is Ok {
            lemma_block_framed(first.state, block.drop_first());
            let all = compile_block(first.state, block.drop_first());
            if all.result is Ok && st.scopes.len() > 0 {
                assert forall|i: int| 0 <= i < st.scopes.len() - 1 implies (
                #[trigger] all.state.scopes[i]).len() == st.scopes[i].len() by {
                    assert(first.state.scopes[i].len() == st.scopes[i].len());
                }
            }
        }
    }
}

/// An `if` takes one label and, where it does not fail, leaves every scope
/// with as many bindings as it had.
pub proof fn lemma_if_framed(
    st: StateModel,
    p: Expr,
    block: Seq<Statement>,
    other: Option<Seq<Statement>>,
)
    requires
        st.wf(),
        st.has_room(1 + block_size(block) + branch_size(other)),
    ensures
        framed(st, 1 + block_size(block) + branch_size(other), compile_if(st, p, block, other)),
        compile_if(st, p, block, other).state.next_label > st.next_label,
        compile_if(st, p, block, other).result is Ok ==> {
            &&& same_bindings(st.scopes, compile_if(st, p, block, other).state.scopes)
            &&& compile_if(st, p, block, other).state.next_address == st.next_address
        },
    decreases block_size(block) + branch_size(other), 2nat,
{
    let labelled = st.take_label();
    assert(labelled.wf());
    if lower(labelled.scopes, p) is Ok {
        lemma_enter_scope_wf(labelled);
        lemma_block_framed(labelled.enter_scope(), block);
        let taken = compile_block(labelled.enter_scope(), block);
        if taken.result is Ok {
            lemma_scope_closed(labelled, block_size(block), taken);
            let closed = taken.state.exit_scope();
            if let Some(branch) = other {
                lemma_enter_scope_wf(closed);
                lemma_block_framed(closed.enter_scope(), branch);
                let skipped = compile_block(closed.enter_scope(), branch);
                if skipped.result is Ok {
                    lemma_scope_closed(closed, block_size(branch), skipped);
                }
            }
        }
    }
}

/// A loop takes one label and, where it does not fail, leaves every scope
/// with as many bindings as it had.
pub proof fn lemma_loop_framed(st: StateModel, block: Seq<Statement>)
    requires
        st.wf(),
        st.has_room(1 + block_size(block)),
    ensures
        framed(st, 1 + block_size(block), compile_loop(st, block)),
        compile_loop(st, block).state.next_label > st.next_label,
        compile_loop(st, block).result is Ok ==> {
            &&& same_bindings(st.scopes, compile_loop(st, block).state.scopes)
            &&& compile_loop(st, block).state.next_address == st.next_address
        },
    decreases block_size(block), 2nat,
{
    let labelled = st.enter_loop(st.next_label as u32).take_label();
    lemma_loop_entry_wf(st);
    assert(labelled.wf());
    lemma_block_framed(loop_entry(st), block);
    let body = compile_block(loop_entry(st), block);
    if body.result is Ok {
        lemma_scope_closed(labelled, block_size(block), body);
        lemma_exit_loop_wf(body.state.exit_scope());
        assert(body.state.exit_scope().exit_loop().loops =~= st.loops);
    }
}

/// As for a loop.
pub proof fn lemma_until_framed(st: StateModel, p: Expr, block: Seq<Statement>)
    requires
        st.wf(),
        st.has_room(1 + block_size(block)),
    ensures
        framed(st, 1 + block_size(block), compile_until(st, p, block)),
        compile_until(st, p, block).state.next_label > st.next_label,
        compile_until(st, p, block).result is Ok ==> {
            &&& same_bindings(st.scopes, compile_until(st, p, block).state.scopes)
            &&& compile_until(st, p, block).state.next_address == st.next_address
        },
    decreases block_size(block), 2nat,
{
    let labelled = st.enter_loop(st.next_label as u32).take_label();
    lemma_loop_entry_wf(st);
    assert(labelled.wf());
    lemma_block_framed(loop_entry(st), block);
    let body = compile_block(loop_entry(st), block);
    if body.result is Ok {
        lemma_scope_closed(labelled, block_size(block), body);
        lemma_exit_loop_wf(body.state.exit_scope());
        assert(body.state.exit_scope().exit_loop().loops =~= st.loops);
    }
}

/// After the variable that a name refers to is replaced, the name refers
/// to the replacement.
pub proof fn lemma_resolve_rebind(scopes: Seq<Seq<Entry>>, name: Seq<char>, variable: Variable)
    requires
        visible(scopes, name),
    ensures
        resolve(rebind(scopes, name, variable), name) == Some(variable),
{
    lemma_innermost(scopes, name);
    let i = innermost(scopes, name);
    lemma_index_of(scopes[i], name);
    let j = index_of(scopes[i], name);
    let replaced = rebind(scopes, name, variable);
    assert(replaced[i][j].name == name);
    assert(is_first(replaced[i], name, j)) by {
        assert forall|m: int| 0 <= m < j implies (#[trigger] replaced[i][m]).name != name by {
            assert(replaced[i][m] == scopes[i][m]);
        }
    }
    lemma_first_is_index(replaced[i], name, j);
    assert(is_innermost(replaced, name, i)) by {
        assert forall|k: int| i < k < replaced.len() implies !declares(
            #[trigger] replaced[k],
            name,
        ) by {
            assert(replaced[k] == scopes[k]);
        }
    }
    lemma_is_innermost(replaced, name, i);
}

/// Scopes with the same bindings resolve every name alike: to nothing, or
/// to a variable at the same address.
pub proof fn lemma_resolve_same_bindings(
    before: Seq<Seq<Entry>>,
    after: Seq<Seq<Entry>>,
    name: Seq<char>,
)
    requires
        same_bindings(before, after),
    ensures
        resolve(after, name) is Some <==> resolve(before, name) is Some,
        resolve(before, name) is Some ==> resolve(after, name)->0.address == resolve(
            before,
            name,
        )->0.address,
{
    assert forall|i: int| 0 <= i < before.len() implies (declares(before[i], name) <==> declares(
        #[trigger] after[i],
        name,
    )) by {
        assert(extends(before[i], after[i]));
        if declares(before[i], name) {
            let j = choose|j: int| 0 <= j < before[i].len() && #[trigger] before[i][j].name == name;
            assert(after[i][j].name == name);
        }
        if declares(after[i], name) {
            let j = choose|j: int| 0 <= j < after[i].len() && #[trigger] after[i][j].name == name;
            assert(before[i][j].name == name);
        }
    }
    if visible(before, name) {
        lemma_innermost(before, name);
        let i = innermost(before, name);
        assert(is_innermost(after, name, i));
        lemma_is_innermost(after, name, i);
        lemma_index_of(before[i], name);
        let j = index_of(before[i], name);
        assert(extends(before[i], after[i]));
        assert(is_first(after[i], name, j)) by {
            assert(after[i][j].name == name);
            assert forall|m: int| 0 <= m < j implies (#[trigger] after[i][m]).name != name by {
                assert(before[i][m].name != name);
            }
        }
        lemma_first_is_index(after[i], name, j);
    } else if visible(after, name) {
        let i = choose|i: int| 0 <= i < after.len() && declares(#[trigger] after[i], name);
        assert(declares(before[i], name));
    }
}

} // verus!
