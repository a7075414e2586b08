//! One lexical block's bindings, in the order of their declaration.

use vstd::prelude::*;

verus! {

/// Where a variable lives, and whether it has received a value yet.
#[derive(Debug, Clone, Copy, PartialEq, Eq, Structural)]
pub struct Variable {
    pub address: u32,
    pub initialized: bool,
}

/// A binding as the contracts see it.
pub struct Entry {
    pub name: Seq<char>,
    pub variable: Variable,
}

struct Binding {
    name: String,
    variable: Variable,
}

/// The bindings of one block. Each name is bound at most once.
pub struct Scope {
    bindings: Vec<Binding>,
}

/// Whether `scope` binds `name`.
pub open spec fn declares(scope: Seq<Entry>, name: Seq<char>) -> bool {
    exists|i: int| 0 <= i < scope.len() && #[trigger] scope[i].name == name
}

/// Whether `i` is the place of the first binding of `name` in `scope`.
pub open spec fn is_first(scope: Seq<Entry>, name: Seq<char>, i: int) -> bool {
    &&& 0 <= i < scope.len()
    &&& scope[i].name == name
    &&& forall|j: int| 0 <= j < i ==> #[trigger] scope[j].name != name
}

/// The place of the binding of `name` in a scope that declares it.
pub open spec fn index_of(scope: Seq<Entry>, name: Seq<char>) -> int {
    choose|i: int| is_first(scope, name, i)
}

/// The variable that `scope` binds `name` to.
pub open spec fn find(scope: Seq<Entry>, name: Seq<char>) -> Option<Variable> {
    if declares(scope, name) {
        Some(scope[index_of(scope, name)].variable)
    } else {
        None
    }
}

/// `scope` with `name` bound to `variable`: in place where it was bound, at
/// the end where it was not.
pub open spec fn bind(scope: Seq<Entry>, name: Seq<char>, variable: Variable) -> Seq<Entry> {
    if declares(scope, name) {
        scope.update(index_of(scope, name), Entry { name, variable })
    } else {
        scope.push(Entry { name, variable })
    }
}

/// No name is bound twice.
pub open spec fn distinct(scope: Seq<Entry>) -> bool {
    forall|i: int, j: int|
        0 <= i < j < scope.len() ==> (#[trigger] scope[i]).name != (#[trigger] scope[j]).name
}

/// A scope that declares a name has a first binding of it, and `index_of`
/// is its place.
pub proof fn lemma_index_of(scope: Seq<Entry>, name: Seq<char>)
    requires
        declares(scope, name),
    ensures
        is_first(scope, name, index_of(scope, name)),
    decreases scope.len(),
{
    let i = choose|i: int| 0 <= i < scope.len() && #[trigger] scope[i].name == name;
    if exists|j: int| 0 <= j < i && #[trigger] scope[j].name == name {
        let shorter = scope.take(i);
        let j = choose|j: int| 0 <= j < i && #[trigger] scope[j].name == name;
        assert(shorter[j].name == name);
        lemma_index_of(shorter, name);
        let k = index_of(shorter, name);
        assert(is_first(scope, name, k)) by {
            assert forall|m: int| 0 <= m < k implies #[trigger] scope[m].name != name by {
                assert(shorter[m].name != name);
            }
        }
    } else {
        assert(is_first(scope, name, i));
    }
}

/// The first binding of a name is the only place `index_of` can be.
pub proof fn lemma_first_is_index(scope: Seq<Entry>, name: Seq<char>, i: int)
    requires
        is_first(scope, name, i),
    ensures
        declares(scope, name),
        index_of(scope, name) == i,
        find(scope, name) == Some(scope[i].variable),
{
    let k = index_of(scope, name);
    assert(is_first(scope, name, k));
    if k < i {
        assert(scope[k].name != name);
    }
    if i < k {
        assert(scope[i].name != name);
    }
}

impl Scope {
    /// The bindings in the order of their declaration.
    pub closed spec fn view(&self) -> Seq<Entry> {
        Seq::new(
            self.bindings@.len(),
            |i: int| Entry { name: self.bindings@[i].name@, variable: self.bindings@[i].variable },
        )
    }

    /// A scope that binds nothing.
    pub fn new() -> (r: Scope)
        ensures
            r@ == Seq::<Entry>::empty(),
    {
        let r = Scope { bindings: Vec::new() };
        assert(r@ =~= Seq::<Entry>::empty());
        r
    }

    /// The number of bindings.
    pub fn len(&self) -> (n: usize)
        ensures
            n == self@.len(),
    {
        self.bindings.len()
    }

    /// The place of the binding of `id`, counted from the first that was
    /// declared.
    pub fn position(&self, id: &String) -> (r: Option<usize>)
        ensures
            r is Some == declares(self@, id@),
            r matches Some(i) ==> i == index_of(self@, id@) && is_first(self@, id@, i as int),
    {
        let mut i: usize = 0;
        while i < self.bindings.len()
            invariant
                i <= self.bindings.len(),
                forall|j: int| 0 <= j < i ==> (#[trigger] self@[j]).name != id@,
            decreases self.bindings.len() - i,
        {
            if self.bindings[i].name == *id {
                proof {
                    assert(self@[i as int].name == id@);
                    lemma_first_is_index(self@, id@, i as int);
                }
                return Some(i);
            }
            assert(self@[i as int].name != id@);
            i = i + 1;
        }
        None
    }

    /// Whether the scope binds `id`.
    pub fn contains_key(&self, id: &str) -> (r: bool)
        ensures
            r == declares(self@, id@),
    {
        let key: String = id.to_owned();
        self.position(&key).is_some()
    }

    /// The variable bound to `id`, to read or to change.
    pub fn get_mut(&mut self, id: &String) -> (r: Option<&mut Variable>)
        ensures
            match r {
                Some(variable) => find(old(self)@, id@) == Some(*variable) && final(self)@ == bind(
                    old(self)@,
                    id@,
                    *final(variable),
                ),
                None => find(old(self)@, id@) is None && final(self)@ == old(self)@,
            },
    {
        match self.position(id) {
            Some(i) => {
                Some(&mut self.bindings[i].variable)
            },
            None => None,
        }
    }

    /// Binds `id` to `variable` and returns what it was bound to before.
    pub fn insert(&mut self, id: String, variable: Variable) -> (r: Option<Variable>)
        ensures
            r == find(old(self)@, id@),
            final(self)@ == bind(old(self)@, id@, variable),
            distinct(old(self)@) ==> distinct(final(self)@),
    {
        match self.position(&id) {
            Some(i) => {
                let previous: Variable = self.bindings[i].variable;
                self.bindings[i].variable = variable;
                assert(self@ =~= bind(old(self)@, id@, variable));
                Some(previous)
            },
            None => {
                self.bindings.push(Binding { name: id, variable });
                assert(self@ =~= bind(old(self)@, id@, variable));
                None
            },
        }
    }
}

} // verus!
