//! Environments: a chain of scopes, innermost first.

use vstd::prelude::*;
use vstd::string::StringExecFns;
use crate::object::{Object, Term};

verus! {

/// Mathematical model of one scope: the names it binds, each with its value.
pub type Scope = Map<Seq<char>, Term>;

/// One name with its value.
#[derive(Debug)]
pub struct Binding {
    name: String,
    value: Object,
}

/// A scope with an optional enclosing scope. Its view is the chain of scopes
/// from this one outward, so it is never empty.
///
/// A scope owns the scope that encloses it: [`Env::extend`] enters a new
/// scope and [`Env::into_parent`] leaves it. A lambda captures no scope, so a
/// scope never has to outlive the call that entered it.
#[derive(Debug)]
pub struct Env {
    parent: Option<Box<Env>>,
    vars: Vec<Binding>,
}

/// The scope that a list of bindings stands for; a later binding of a name
/// hides an earlier one.
pub closed spec fn frame_map(vars: Seq<Binding>) -> Scope
    decreases vars.len(),
{
    if vars.len() == 0 {
        Map::empty()
    } else {
        frame_map(vars.drop_last()).insert(vars.last().name@, vars.last().value@)
    }
}

/// The nearest binding of `name` in a chain of scopes, innermost first.
pub open spec fn lookup(scopes: Seq<Scope>, name: Seq<char>) -> Option<Term>
    decreases scopes.len(),
{
    if scopes.len() == 0 {
        None
    } else if scopes[0].contains_key(name) {
        Some(scopes[0][name])
    } else {
        lookup(scopes.drop_first(), name)
    }
}

/// The chain after `name` is bound to `value` in its innermost scope.
pub open spec fn bind(scopes: Seq<Scope>, name: Seq<char>, value: Term) -> Seq<Scope> {
    if scopes.len() == 0 {
        scopes
    } else {
        scopes.update(0, scopes[0].insert(name, value))
    }
}

/// The chain with a new, empty innermost scope.
pub open spec fn extended(scopes: Seq<Scope>) -> Seq<Scope> {
    seq![Map::<Seq<char>, Term>::empty()] + scopes
}

/// The view of an optional object.
pub open spec fn found_view(r: Option<Object>) -> Option<Term> {
    match r {
        Some(o) => Some(o@),
        None => None,
    }
}

/// Whether no scope of the chain binds `name`.
pub open spec fn unbound(scopes: Seq<Scope>, name: Seq<char>) -> bool {
    forall|i: int| 0 <= i < scopes.len() ==> !(#[trigger] scopes[i]).contains_key(name)
}

/// A name is not found exactly where no scope of the chain binds it.
pub proof fn lemma_lookup_none(scopes: Seq<Scope>, name: Seq<char>)
    ensures
        lookup(scopes, name) is None <==> unbound(scopes, name),
    decreases scopes.len(),
{
    if scopes.len() > 0 {
        let rest = scopes.drop_first();
        lemma_lookup_none(rest, name);
        if scopes[0].contains_key(name) {
        } else if unbound(rest, name) {
            assert forall|i: int| 0 <= i < scopes.len() implies !(#[trigger] scopes[i]).contains_key(
                name,
            ) by {
                if i > 0 {
                    assert(!rest[i - 1].contains_key(name));
                }
            }
        } else {
            let k = choose|k: int| 0 <= k < rest.len() && (#[trigger] rest[k]).contains_key(name);
            assert(scopes[k + 1].contains_key(name));
        }
    }
}

/// A name is found with the value of the innermost scope that binds it.
pub proof fn lemma_lookup_nearest(scopes: Seq<Scope>, name: Seq<char>, i: int)
    requires
        0 <= i < scopes.len(),
        scopes[i].contains_key(name),
        unbound(scopes.take(i), name),
    ensures
        lookup(scopes, name) == Some(scopes[i][name]),
    decreases i,
{
    if i > 0 {
        let rest = scopes.drop_first();
        assert(!scopes.take(i)[0].contains_key(name));
        assert forall|j: int| 0 <= j < i - 1 implies !(#[trigger] rest.take(i - 1)[j]).contains_key(
            name,
        ) by {
            assert(!scopes.take(i)[j + 1].contains_key(name));
        }
        lemma_lookup_nearest(rest, name, i - 1);
    }
}

/// A name just bound is found, with the value it was bound to.
pub proof fn lemma_bind_then_lookup(scopes: Seq<Scope>, name: Seq<char>, value: Term)
    requires
        scopes.len() > 0,
    ensures
        lookup(bind(scopes, name, value), name) == Some(value),
{
}

/// Binding one name changes what no other name is bound to.
pub proof fn lemma_bind_keeps_other_names(
    scopes: Seq<Scope>,
    name: Seq<char>,
    value: Term,
    other: Seq<char>,
)
    requires
        other != name,
    ensures
        lookup(bind(scopes, name, value), other) == lookup(scopes, other),
{
    if scopes.len() > 0 {
        assert(bind(scopes, name, value).drop_first() =~= scopes.drop_first());
    }
}

/// Binding writes to the innermost scope only: every enclosing scope stays
/// as it was, and the chain keeps its length.
pub proof fn lemma_bind_is_local(scopes: Seq<Scope>, name: Seq<char>, value: Term)
    ensures
        bind(scopes, name, value).len() == scopes.len(),
        forall|i: int| 1 <= i < scopes.len() ==> bind(scopes, name, value)[i] == scopes[i],
{
}

/// Binding a name again replaces its value: the first binding leaves no trace.
pub proof fn lemma_bind_again(scopes: Seq<Scope>, name: Seq<char>, first: Term, second: Term)
    ensures
        bind(bind(scopes, name, first), name, second) == bind(scopes, name, second),
{
    if scopes.len() > 0 {
        assert(scopes[0].insert(name, first).insert(name, second) =~= scopes[0].insert(
            name,
            second,
        ));
        assert(bind(bind(scopes, name, first), name, second) =~= bind(scopes, name, second));
    }
}

/// A new scope binds nothing: every name is found where it was found in the
/// enclosing chain.
pub proof fn lemma_extended_lookup(scopes: Seq<Scope>, name: Seq<char>)
    ensures
        lookup(extended(scopes), name) == lookup(scopes, name),
{
    assert(extended(scopes).drop_first() =~= scopes);
}

/// A binding in a new scope hides the binding of the same name in an
/// enclosing scope and leaves it unchanged there.
pub proof fn lemma_shadowing(scopes: Seq<Scope>, name: Seq<char>, value: Term)
    ensures
        lookup(bind(extended(scopes), name, value), name) == Some(value),
        bind(extended(scopes), name, value).drop_first() == scopes,
{
    assert(bind(extended(scopes), name, value).drop_first() =~= scopes);
}

/// A name that no binding holds is not in the scope.
proof fn lemma_frame_absent(vars: Seq<Binding>, name: Seq<char>)
    requires
        forall|j: int| 0 <= j < vars.len() ==> vars[j].name@ != name,
    ensures
        !frame_map(vars).contains_key(name),
    decreases vars.len(),
{
    if vars.len() > 0 {
        lemma_frame_absent(vars.drop_last(), name);
    }
}

/// The last binding of a name gives the name's value in the scope.
proof fn lemma_frame_present(vars: Seq<Binding>, name: Seq<char>, i: int)
    requires
        0 <= i < vars.len(),
        vars[i].name@ == name,
        forall|j: int| i < j < vars.len() ==> vars[j].name@ != name,
    ensures
        frame_map(vars).contains_key(name),
        frame_map(vars)[name] == vars[i].value@,
    decreases vars.len(),
{
    if i < vars.len() - 1 {
        lemma_frame_present(vars.drop_last(), name, i);
    }
}

/// Replacing the last binding of a name binds the name anew and changes
/// nothing else.
proof fn lemma_frame_overwrite(vars: Seq<Binding>, i: int, b: Binding)
    requires
        0 <= i < vars.len(),
        vars[i].name@ == b.name@,
        forall|j: int| i < j < vars.len() ==> vars[j].name@ != b.name@,
    ensures
        frame_map(vars.update(i, b)) == frame_map(vars).insert(b.name@, b.value@),
    decreases vars.len(),
{
    let after = vars.update(i, b);
    if i == vars.len() - 1 {
        assert(after.drop_last() =~= vars.drop_last());
        assert(frame_map(after) =~= frame_map(vars).insert(b.name@, b.value@));
    } else {
        lemma_frame_overwrite(vars.drop_last(), i, b);
        assert(after.drop_last() =~= vars.drop_last().update(i, b));
        assert(frame_map(after) =~= frame_map(vars).insert(b.name@, b.value@));
    }
}

impl View for Env {
    type V = Seq<Scope>;

    closed spec fn view(&self) -> Seq<Scope> {
        chain_of(*self)
    }
}

/// The scopes of an environment, from its own outward.
pub closed spec fn chain_of(env: Env) -> Seq<Scope>
    decreases env,
{
    match env.parent {
        Some(p) => seq![frame_map(env.vars@)] + chain_of(*p),
        None => seq![frame_map(env.vars@)],
    }
}

impl Default for Env {
    /// An environment of one empty scope.
    fn default() -> (r: Env)
        ensures
            r@ == seq![Map::<Seq<char>, Term>::empty()],
    {
        Env::new()
    }
}

impl Env {
    /// An environment of one empty scope.
    pub fn new() -> (r: Env)
        ensures
            r@ == seq![Map::<Seq<char>, Term>::empty()],
    {
        Env { parent: None, vars: Vec::new() }
    }

    /// A new, empty scope inside `parent`.
    pub fn extend(parent: Env) -> (r: Env)
        ensures
            r@ == extended(parent@),
    {
        Env { parent: Some(Box::new(parent)), vars: Vec::new() }
    }

    /// Leaves the innermost scope: the enclosing environment, or `None` where
    /// this scope is the outermost.
    pub fn into_parent(self) -> (r: Option<Env>)
        ensures
            self@.len() >= 2 ==> r is Some && r->Some_0@ == self@.drop_first(),
            self@.len() < 2 ==> r is None,
    {
        proof {
            if self.parent is Some {
                self.parent->Some_0.lemma_never_empty();
                assert((seq![frame_map(self.vars@)] + chain_of(*self.parent->Some_0)).drop_first()
                    =~= chain_of(*self.parent->Some_0));
            }
        }
        match self.parent {
            Some(p) => Some(*p),
            None => None,
        }
    }

    /// Every environment has at least its own scope.
    pub proof fn lemma_never_empty(&self)
        ensures
            self@.len() >= 1,
    {
    }

    /// The index of the binding of `name` that counts in this scope.
    fn find(&self, name: &String) -> (r: Option<usize>)
        ensures
            match r {
                Some(i) => i < self.vars.len() && self.vars[i as int].name@ == name@ && forall|
                    j: int,
                | i < j < self.vars.len() ==> self.vars[j].name@ != name@,
                None => forall|j: int| 0 <= j < self.vars.len() ==> self.vars[j].name@ != name@,
            },
    {
        let mut i: usize = self.vars.len();
        while i > 0
            invariant
                i <= self.vars.len(),
                forall|j: int| i <= j < self.vars.len() ==> self.vars[j].name@ != name@,
            decreases i,
        {
            i -= 1;
            if self.vars[i].name == *name {
                return Some(i);
            }
        }
        None
    }

    /// The value bound to `name` in the nearest scope that binds it.
    pub fn get(&self, name: &str) -> (r: Option<Object>)
        ensures
            found_view(r) == lookup(self@, name@),
        decreases self,
    {
        let key = String::from_str(name);
        self.get_key(&key)
    }

    /// [`Env::get`] with the name as a `String`.
    fn get_key(&self, key: &String) -> (r: Option<Object>)
        ensures
            found_view(r) == lookup(self@, key@),
        decreases self,
    {
        proof {
            if self.parent is Some {
                assert(self@.drop_first() =~= chain_of(*self.parent->Some_0));
            } else {
                assert(self@.drop_first() =~= Seq::<Scope>::empty());
                assert(lookup(Seq::<Scope>::empty(), key@) is None);
            }
        }
        match self.find(key) {
            Some(i) => {
                proof {
                    lemma_frame_present(self.vars@, key@, i as int);
                }
                Some(self.vars[i].value.deep_clone())
            },
            None => {
                proof {
                    lemma_frame_absent(self.vars@, key@);
                }
                match &self.parent {
                    Some(p) => p.get_key(key),
                    None => None,
                }
            },
        }
    }

    /// Binds `name` to `obj` in this scope only; an enclosing scope that
    /// binds the name keeps its own binding.
    pub fn set(&mut self, name: &str, obj: Object)
        ensures
            final(self)@ == bind(old(self)@, name@, obj@),
    {
        let key = String::from_str(name);
        let found = self.find(&key);
        let binding = Binding { name: key, value: obj };
        let ghost before = self.vars@;
        match found {
            Some(i) => {
                proof {
                    lemma_frame_overwrite(before, i as int, binding);
                }
                self.vars.set(i, binding);
            },
            None => {
                self.vars.push(binding);
                assert(self.vars@.drop_last() =~= before);
            },
        }
        assert(final(self)@ =~= bind(old(self)@, name@, obj@));
    }
}

} // verus!
