use vstd::prelude::*;
use vstd::string::StringExecFns;
use crate::number::{Number, E_BITS, PI_BITS};

verus! {

/// The built-in constants: `e` and `pi`.
pub open spec fn builtins() -> Map<Seq<char>, Number> {
    map![seq!['e'] => Number::e(), seq!['p', 'i'] => Number::pi()]
}

/// The value that `name` has where the variables are `locals`: that of the
/// built-in constant of this name if there is one, else that of the
/// variable.
pub open spec fn resolve(locals: Map<Seq<char>, Number>, name: Seq<char>) -> Option<Number> {
    if builtins().contains_key(name) {
        Some(builtins()[name])
    } else if locals.contains_key(name) {
        Some(locals[name])
    } else {
        None
    }
}

/// The variables `locals` after `name` was given `value`. The name of a
/// built-in constant is never bound.
pub open spec fn bind(locals: Map<Seq<char>, Number>, name: Seq<char>, value: Number) -> Map<
    Seq<char>,
    Number,
> {
    if builtins().contains_key(name) {
        locals
    } else {
        locals.insert(name, value)
    }
}

/// The mapping that a list of bindings stands for. Where a name is bound
/// twice, the later binding counts.
spec fn bindings(entries: Seq<(String, Number)>) -> Map<Seq<char>, Number>
    decreases entries.len(),
{
    if entries.len() == 0 {
        Map::empty()
    } else {
        bindings(entries.drop_last()).insert(entries.last().0@, entries.last().1)
    }
}

/// Whether `i` is the place of the last binding of `name`.
spec fn binds_last(entries: Seq<(String, Number)>, i: int, name: Seq<char>) -> bool {
    &&& 0 <= i < entries.len()
    &&& entries[i].0@ == name
    &&& forall|j: int| i < j < entries.len() ==> (#[trigger] entries[j]).0@ != name
}

proof fn lemma_unbound(entries: Seq<(String, Number)>, name: Seq<char>)
    requires
        forall|j: int| 0 <= j < entries.len() ==> (#[trigger] entries[j]).0@ != name,
    ensures
        !bindings(entries).contains_key(name),
    decreases entries.len(),
{
    if entries.len() > 0 {
        let front = entries.drop_last();
        assert forall|j: int| 0 <= j < front.len() implies (#[trigger] front[j]).0@ != name by {
            assert(entries[j].0@ != name);
        }
        lemma_unbound(front, name);
        assert(entries[entries.len() - 1].0@ != name);
    }
}

proof fn lemma_bound_last(entries: Seq<(String, Number)>, i: int, name: Seq<char>)
    requires
        binds_last(entries, i, name),
    ensures
        bindings(entries).contains_key(name),
        bindings(entries)[name] == entries[i].1,
    decreases entries.len(),
{
    if i < entries.len() - 1 {
        let front = entries.drop_last();
        assert(binds_last(front, i, name)) by {
            assert(front[i] == entries[i]);
            assert forall|j: int| i < j < front.len() implies (#[trigger] front[j]).0@ != name by {
                assert(entries[j].0@ != name);
            }
        }
        lemma_bound_last(front, i, name);
        assert(entries[entries.len() - 1].0@ != name);
    }
}

proof fn lemma_rebound_last(entries: Seq<(String, Number)>, i: int, entry: (String, Number))
    requires
        binds_last(entries, i, entry.0@),
    ensures
        bindings(entries.update(i, entry)) == bindings(entries).insert(entry.0@, entry.1),
    decreases entries.len(),
{
    let changed = entries.update(i, entry);
    let front = entries.drop_last();
    if i == entries.len() - 1 {
        assert(changed.drop_last() =~= front);
        assert(bindings(changed) =~= bindings(entries).insert(entry.0@, entry.1));
    } else {
        assert(binds_last(front, i, entry.0@)) by {
            assert(front[i] == entries[i]);
            assert forall|j: int| i < j < front.len() implies (#[trigger] front[j]).0@
                != entry.0@ by {
                assert(entries[j].0@ != entry.0@);
            }
        }
        lemma_rebound_last(front, i, entry);
        assert(changed.drop_last() =~= front.update(i, entry));
        assert(changed.last() == entries.last());
        assert(entries[entries.len() - 1].0@ != entry.0@);
        assert(bindings(changed) =~= bindings(entries).insert(entry.0@, entry.1));
    }
}

proof fn lemma_bindings_by_view(a: Seq<(String, Number)>, b: Seq<(String, Number)>)
    requires
        a.len() == b.len(),
        forall|i: int| 0 <= i < a.len() ==> (#[trigger] a[i]).0@ == b[i].0@ && a[i].1 == b[i].1,
    ensures
        bindings(a) == bindings(b),
    decreases a.len(),
{
    if a.len() > 0 {
        assert forall|i: int| 0 <= i < a.drop_last().len() implies (#[trigger] a.drop_last()[i]).0@
            == b.drop_last()[i].0@ && a.drop_last()[i].1 == b.drop_last()[i].1 by {
            assert(a[i].0@ == b[i].0@);
        }
        lemma_bindings_by_view(a.drop_last(), b.drop_last());
        assert(a[a.len() - 1].0@ == b[a.len() - 1].0@);
    }
}

/// The place of the last binding of `name`, if it is bound.
fn find(entries: &Vec<(String, Number)>, name: &String) -> (r: Option<usize>)
    ensures
        match r {
            Some(i) => binds_last(entries@, i as int, name@),
            None => !bindings(entries@).contains_key(name@),
        },
{
    let mut i: usize = entries.len();
    while i > 0
        invariant
            i <= entries.len(),
            forall|j: int| i <= j < entries.len() ==> (#[trigger] entries[j]).0@ != name@,
        decreases i,
    {
        i = i - 1;
        if entries[i].0 == *name {
            return Some(i);
        }
    }
    proof {
        lemma_unbound(entries@, name@);
    }
    None
}

/// The value of the built-in constant `name`, if there is one of this name.
fn builtin(name: &String) -> (r: Option<Number>)
    ensures
        r == if builtins().contains_key(name@) {
            Some(builtins()[name@])
        } else {
            None
        },
{
    proof {
        reveal_strlit("e");
        reveal_strlit("pi");
        assert("e"@ =~= seq!['e']);
        assert("pi"@ =~= seq!['p', 'i']);
    }
    if *name == String::from_str("e") {
        Some(Number::from_bits(E_BITS))
    } else if *name == String::from_str("pi") {
        Some(Number::from_bits(PI_BITS))
    } else {
        None
    }
}

/// The variables of a session: the built-in constants, which are fixed, and
/// the variables that the user has assigned.
pub struct SymbolTable {
    local: Vec<(String, Number)>,
}

impl SymbolTable {
    /// The user's variables and their values.
    pub closed spec fn locals(&self) -> Map<Seq<char>, Number> {
        bindings(self.local@).remove_keys(builtins().dom())
    }

    /// The value that `name` has, if it has one.
    pub open spec fn lookup(&self, name: Seq<char>) -> Option<Number> {
        resolve(self.locals(), name)
    }

    /// No user variable has the name of a built-in constant.
    pub proof fn lemma_locals_apart(&self)
        ensures
            forall|name: Seq<char>|
                builtins().contains_key(name) ==> !(#[trigger] self.locals().contains_key(name)),
    {
    }

    /// A table with the built-in constants and no variable.
    pub fn new() -> (r: SymbolTable)
        ensures
            r.locals() == Map::<Seq<char>, Number>::empty(),
    {
        let r = SymbolTable { local: Vec::new() };
        assert(r.locals() =~= Map::<Seq<char>, Number>::empty());
        r
    }

    /// Removes the user's variables. The built-in constants stay.
    pub fn clear(&mut self)
        ensures
            final(self).locals() == Map::<Seq<char>, Number>::empty(),
    {
        self.local = Vec::new();
        assert(self.locals() =~= Map::<Seq<char>, Number>::empty());
    }

    /// The value of `symbol`, if it has one.
    pub fn get(&self, symbol: &String) -> (r: Option<Number>)
        ensures
            r == self.lookup(symbol@),
    {
        match builtin(symbol) {
            Some(value) => Some(value),
            None => match find(&self.local, symbol) {
                Some(i) => {
                    proof {
                        lemma_bound_last(self.local@, i as int, symbol@);
                    }
                    Some(self.local[i].1)
                },
                None => None,
            },
        }
    }

    /// Binds the user's variable `symbol` to `value`, in place of any value
    /// it had. The name of a built-in constant is never bound: the table is
    /// then left as it is.
    pub fn insert(&mut self, symbol: String, value: Number)
        ensures
            final(self).locals() == bind(old(self).locals(), symbol@, value),
    {
        if builtin(&symbol).is_some() {
            return ;
        }
        let ghost before = self.local@;
        match find(&self.local, &symbol) {
            Some(i) => {
                proof {
                    lemma_rebound_last(before, i as int, (symbol, value));
                }
                self.local.set(i, (symbol, value));
            },
            None => {
                proof {
                    assert(before.push((symbol, value)).drop_last() =~= before);
                }
                self.local.push((symbol, value));
            },
        }
        assert(self.locals() =~= bindings(before).remove_keys(builtins().dom()).insert(
            symbol@,
            value,
        ));
    }

    /// Whether `symbol` names a built-in constant.
    pub fn is_global(&self, symbol: &String) -> (r: bool)
        ensures
            r == builtins().contains_key(symbol@),
    {
        builtin(symbol).is_some()
    }
}

impl Clone for SymbolTable {
    fn clone(&self) -> (r: SymbolTable)
        ensures
            r.locals() == self.locals(),
    {
        let mut local: Vec<(String, Number)> = Vec::new();
        let mut i: usize = 0;
        while i < self.local.len()
            invariant
                i <= self.local.len(),
                local@.len() == i,
                forall|j: int|
                    0 <= j < i ==> (#[trigger] local@[j]).0@ == self.local@[j].0@ && local@[j].1
                        == self.local@[j].1,
            decreases self.local.len() - i,
        {
            local.push((self.local[i].0.clone(), self.local[i].1));
            i = i + 1;
        }
        proof {
            lemma_bindings_by_view(local@, self.local@);
        }
        SymbolTable { local }
    }
}

} // verus!
