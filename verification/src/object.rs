//! The value model: one tagged union for both code and data.

use vstd::prelude::*;

verus! {

/// Mathematical model of an [`Object`]: the same shape over sequences.
pub enum Term {
    Void,
    Integer(i64),
    Bool(bool),
    Symbol(Seq<char>),
    Lambda(Seq<Seq<char>>, Seq<Term>),
    List(Seq<Term>),
}

/// The runtime datum. A `List` is an expression before evaluation and plain
/// composite data after it.
#[derive(Debug, PartialEq)]
pub enum Object {
    Void,
    Integer(i64),
    Bool(bool),
    Symbol(String),
    Lambda(Vec<String>, Vec<Object>),
    List(Vec<Object>),
}

/// The names held by a vector of strings.
pub open spec fn names_view(names: Seq<String>) -> Seq<Seq<char>> {
    Seq::new(names.len(), |i: int| names[i]@)
}

/// The terms held by a vector of objects.
pub open spec fn objects_view(items: Seq<Object>) -> Seq<Term> {
    Seq::new(items.len(), |i: int| items[i]@)
}

/// The term that an object stands for.
pub open spec fn term_of(o: Object) -> Term
    decreases o,
{
    match o {
        Object::Void => Term::Void,
        Object::Integer(n) => Term::Integer(n),
        Object::Bool(b) => Term::Bool(b),
        Object::Symbol(s) => Term::Symbol(s@),
        Object::Lambda(params, body) => Term::Lambda(
            names_view(params@),
            Seq::new(
                body@.len(),
                |i: int|
                    if 0 <= i < body@.len() {
                        term_of(body@[i])
                    } else {
                        Term::Void
                    },
            ),
        ),
        Object::List(items) => Term::List(
            Seq::new(
                items@.len(),
                |i: int|
                    if 0 <= i < items@.len() {
                        term_of(items@[i])
                    } else {
                        Term::Void
                    },
            ),
        ),
    }
}

impl View for Object {
    type V = Term;

    open spec fn view(&self) -> Term {
        term_of(*self)
    }
}

/// The view of a compound object is built from the views of its parts.
pub proof fn lemma_view_parts(o: Object)
    ensures
        o matches Object::List(items) ==> o@ == Term::List(objects_view(items@)),
        o matches Object::Lambda(params, body) ==> o@ == Term::Lambda(
            names_view(params@),
            objects_view(body@),
        ),
{
    match o {
        Object::List(items) => {
            assert(o@->List_0 =~= objects_view(items@));
        },
        Object::Lambda(params, body) => {
            assert(o@->Lambda_1 =~= objects_view(body@));
        },
        _ => {},
    }
}

/// Copies a vector of names.
pub fn clone_names(names: &Vec<String>) -> (r: Vec<String>)
    ensures
        names_view(r@) == names_view(names@),
{
    let mut out: Vec<String> = Vec::new();
    let mut i: usize = 0;
    while i < names.len()
        invariant
            i <= names.len(),
            out.len() == i,
            forall|j: int| 0 <= j < i ==> out[j]@ == names[j]@,
        decreases names.len() - i,
    {
        out.push(names[i].clone());
        i += 1;
    }
    assert(names_view(out@) =~= names_view(names@));
    out
}

/// Copies a vector of objects, element by element.
pub fn clone_objects(items: &Vec<Object>) -> (r: Vec<Object>)
    ensures
        objects_view(r@) == objects_view(items@),
    decreases items,
{
    let mut out: Vec<Object> = Vec::new();
    let mut i: usize = 0;
    while i < items.len()
        invariant
            i <= items.len(),
            out.len() == i,
            forall|j: int| 0 <= j < i ==> out[j]@ == items[j]@,
        decreases items.len() - i,
    {
        out.push(items[i].deep_clone());
        i += 1;
    }
    assert(objects_view(out@) =~= objects_view(items@));
    out
}

impl Clone for Object {
    /// A structural copy, as [`Object::deep_clone`] gives it.
    fn clone(&self) -> (r: Object)
        ensures
            r@ == self@,
    {
        self.deep_clone()
    }
}

impl Object {
    /// A structural copy: the result has the same view as `self`.
    pub fn deep_clone(&self) -> (r: Object)
        ensures
            r@ == self@,
        decreases self,
    {
        proof {
            lemma_view_parts(*self);
        }
        let r = match self {
            Object::Void => Object::Void,
            Object::Integer(n) => Object::Integer(*n),
            Object::Bool(b) => Object::Bool(*b),
            Object::Symbol(s) => Object::Symbol(s.clone()),
            Object::Lambda(params, body) => Object::Lambda(clone_names(params), clone_objects(body)),
            Object::List(items) => Object::List(clone_objects(items)),
        };
        proof {
            lemma_view_parts(r);
        }
        r
    }
}

} // verus!
