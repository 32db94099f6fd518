//! The evaluator: a tree walk over objects, proved to compute what
//! [`crate::semantics`] defines.

use vstd::prelude::*;
use vstd::pervasive::VecAdditionalExecFns;
use vstd::string::StringExecFns;
use crate::env::Env;
use crate::object::{clone_objects, lemma_view_parts, names_view, objects_view, Object, Term};
use crate::parser::{parse, ParseError};
use crate::semantics::{
    apply_operator, call_scope, operand_count, eval_call, eval_cond, eval_def, eval_each,
    eval_form, eval_operator, eval_term, evaluates_to, head_of, kind_of, make_lambda, resolve,
    symbol_names, Fault, Flaw, Form, Head, Kind, Operator, Outcomes, MAX_DEPTH,
};

verus! {

/// Why an evaluation failed. The first failure ends the evaluation.
#[derive(Debug, PartialEq)]
pub enum EvalError {
    /// The text is not one parenthesised form.
    Parse(ParseError),
    /// A symbol is bound in no scope.
    UnboundSymbol { name: String },
    /// The head of a call is bound to something other than a lambda.
    NotCallable { name: String },
    /// A form or a call has the wrong number of operands.
    ArityMismatch { expected: usize, got: usize },
    /// An operand or a condition has the wrong kind of value.
    TypeMismatch { expected: Kind, got: Kind },
    /// The divisor is zero.
    DivisionByZero,
    /// The result does not fit in 64 bits.
    IntegerOverflow,
    /// A special form is not shaped as its rule asks.
    MalformedForm { form: Form, reason: Flaw },
    /// Evaluation nested deeper than the limit.
    StackOverflow,
}

impl View for EvalError {
    type V = Fault;

    open spec fn view(&self) -> Fault {
        match self {
            EvalError::Parse(e) => Fault::Parse(e.reason),
            EvalError::UnboundSymbol { name } => Fault::UnboundSymbol(name@),
            EvalError::NotCallable { name } => Fault::NotCallable(name@),
            EvalError::ArityMismatch { expected, got } => Fault::ArityMismatch {
                expected: *expected as nat,
                got: *got as nat,
            },
            EvalError::TypeMismatch { expected, got } => Fault::TypeMismatch {
                expected: *expected,
                got: *got,
            },
            EvalError::DivisionByZero => Fault::DivisionByZero,
            EvalError::IntegerOverflow => Fault::IntegerOverflow,
            EvalError::MalformedForm { form, reason } => Fault::MalformedForm {
                form: *form,
                reason: *reason,
            },
            EvalError::StackOverflow => Fault::StackOverflow,
        }
    }
}

/// The view of an evaluation result.
pub open spec fn result_view(r: Result<Object, EvalError>) -> Result<Term, Fault> {
    match r {
        Ok(o) => Ok(o@),
        Err(e) => Err(e@),
    }
}

/// The view of the result of evaluating a run of objects.
pub open spec fn results_view(r: Result<Vec<Object>, EvalError>) -> Result<Seq<Term>, Fault> {
    match r {
        Ok(v) => Ok(objects_view(v@)),
        Err(e) => Err(e@),
    }
}

/// The values in `acc` put in front of what the rest of a run gave.
pub open spec fn joined(acc: Seq<Term>, rest: Outcomes) -> Outcomes {
    match rest.0 {
        Ok(values) => (Ok(acc + values), rest.1),
        Err(f) => (Err(f), rest.1),
    }
}

/// The variant of an object.
pub fn kind(o: &Object) -> (r: Kind)
    ensures
        r == kind_of(o@),
{
    match o {
        Object::Void => Kind::Void,
        Object::Integer(_) => Kind::Integer,
        Object::Bool(_) => Kind::Bool,
        Object::Symbol(_) => Kind::Symbol,
        Object::Lambda(_, _) => Kind::Lambda,
        Object::List(_) => Kind::List,
    }
}

/// The number of forms that follow the head of a list.
pub fn operands(list: &Vec<Object>) -> (r: usize)
    ensures
        r == operand_count(objects_view(list@)),
{
    if list.len() == 0 {
        0
    } else {
        list.len() - 1
    }
}

/// Whether `s` is spelled `word`.
fn is_word(s: &String, word: &str) -> (r: bool)
    ensures
        r == (s@ == word@),
{
    let w = String::from_str(word);
    *s == w
}

/// The rule that a head symbol selects.
pub fn classify(s: &String) -> (r: Head)
    ensures
        r == head_of(s@),
{
    if is_word(s, "+") {
        Head::Operator(Operator::Add)
    } else if is_word(s, "-") {
        Head::Operator(Operator::Sub)
    } else if is_word(s, "*") {
        Head::Operator(Operator::Mul)
    } else if is_word(s, "/") {
        Head::Operator(Operator::Div)
    } else if is_word(s, "<") {
        Head::Operator(Operator::Less)
    } else if is_word(s, ">") {
        Head::Operator(Operator::Greater)
    } else if is_word(s, "=") {
        Head::Operator(Operator::Equal)
    } else if is_word(s, "!=") {
        Head::Operator(Operator::NotEqual)
    } else if is_word(s, "def") {
        Head::Define
    } else if is_word(s, "if") {
        Head::If
    } else if is_word(s, "lambda") {
        Head::Lambda
    } else {
        Head::Call
    }
}

/// The result of a checked operation: `None` is an overflow.
fn checked(v: Option<i64>) -> (r: Result<Object, EvalError>)
    ensures
        result_view(r) == match v {
            Some(n) => Ok::<Term, Fault>(Term::Integer(n)),
            None => Err::<Term, Fault>(Fault::IntegerOverflow),
        },
{
    match v {
        Some(n) => Ok(Object::Integer(n)),
        None => Err(EvalError::IntegerOverflow),
    }
}

/// Applies an operator to two integers, with checked 64-bit arithmetic.
pub fn compute(op: Operator, a: i64, b: i64) -> (r: Result<Object, EvalError>)
    ensures
        result_view(r) == apply_operator(op, a, b),
{
    match op {
        Operator::Add => checked(a.checked_add(b)),
        Operator::Sub => checked(a.checked_sub(b)),
        Operator::Mul => checked(a.checked_mul(b)),
        Operator::Div => if b == 0 {
            Err(EvalError::DivisionByZero)
        } else {
            checked(a.checked_div(b))
        },
        Operator::Less => Ok(Object::Bool(a < b)),
        Operator::Greater => Ok(Object::Bool(a > b)),
        Operator::Equal => Ok(Object::Bool(a == b)),
        Operator::NotEqual => Ok(Object::Bool(a != b)),
    }
}

/// Parses `program` and evaluates its first form in `env`, which keeps its
/// bindings from one call to the next.
pub fn eval(program: &str, env: &mut Env) -> (r: Result<Object, EvalError>)
    ensures
        evaluates_to(program@, old(env)@, result_view(r), final(env)@),
        final(env)@.len() == old(env)@.len(),
{
    match parse(program) {
        Ok(obj) => eval_obj(&obj, env, MAX_DEPTH),
        Err(e) => Err(EvalError::Parse(e)),
    }
}

/// Evaluates one object with `depth` levels of nesting left.
pub fn eval_obj(obj: &Object, env: &mut Env, depth: usize) -> (r: Result<Object, EvalError>)
    ensures
        (result_view(r), final(env)@) == eval_term(obj@, old(env)@, depth as nat),
        final(env)@.len() == old(env)@.len(),
    decreases depth, 1int, 0int,
{
    proof {
        lemma_view_parts(*obj);
    }
    match obj {
        Object::Void => Ok(Object::Void),
        Object::Lambda(_, _) => Ok(Object::Void),
        Object::Bool(b) => Ok(Object::Bool(*b)),
        Object::Integer(n) => Ok(Object::Integer(*n)),
        Object::Symbol(s) => eval_symbol(s.as_str(), env),
        Object::List(list) => eval_list(list, env, depth),
    }
}

/// Looks a symbol up through the chain of scopes.
pub fn eval_symbol(s: &str, env: &Env) -> (r: Result<Object, EvalError>)
    ensures
        result_view(r) == resolve(s@, env@),
{
    match env.get(s) {
        Some(v) => Ok(v),
        None => Err(EvalError::UnboundSymbol { name: String::from_str(s) }),
    }
}

/// Evaluates a list by the rule that its head selects.
pub fn eval_list(list: &Vec<Object>, env: &mut Env, depth: usize) -> (r: Result<
    Object,
    EvalError,
>)
    ensures
        (result_view(r), final(env)@) == eval_form(objects_view(list@), old(env)@, depth as nat),
        final(env)@.len() == old(env)@.len(),
    decreases depth, 0int, 0int,
{
    if depth == 0 {
        return Err(EvalError::StackOverflow);
    }
    if list.len() == 0 {
        return Err(EvalError::MalformedForm { form: Form::List, reason: Flaw::Empty });
    }
    let fuel: usize = depth - 1;
    proof {
        lemma_view_parts(list[0]);
    }
    match &list[0] {
        Object::Symbol(s) => match classify(s) {
            Head::Operator(op) => eval_binary_op(op, list, env, fuel),
            Head::Define => eval_define(list, env, fuel),
            Head::If => eval_if(list, env, fuel),
            Head::Lambda => eval_function_define(list),
            Head::Call => eval_function(s.as_str(), list, env, fuel),
        },
        _ => match eval_sequence(list, env, fuel, 0, list.len(), true) {
            Ok(values) => {
                let r = Object::List(values);
                proof {
                    lemma_view_parts(r);
                }
                Ok(r)
            },
            Err(e) => Err(e),
        },
    }
}

/// Evaluates `list[from..to]` in order and collects the values, without the
/// `Void` ones where `skip_void` is set. Stops at the first error.
pub fn eval_sequence(
    list: &Vec<Object>,
    env: &mut Env,
    fuel: usize,
    from: usize,
    to: usize,
    skip_void: bool,
) -> (r: Result<Vec<Object>, EvalError>)
    ensures
        (results_view(r), final(env)@) == eval_each(
            objects_view(list@),
            old(env)@,
            fuel as nat,
            from as int,
            to as int,
            skip_void,
        ),
        final(env)@.len() == old(env)@.len(),
        !skip_void && r is Ok && from <= to <= list.len() ==> r->Ok_0.len() == to - from,
    decreases fuel, 2int, to - from,
{
    if from >= to || to > list.len() {
        let none: Vec<Object> = Vec::new();
        assert(objects_view(none@) =~= Seq::<Term>::empty());
        assert(objects_view(list@).len() == list.len());
        return Ok(none);
    }
    let ghost items = objects_view(list@);
    let ghost start = env@;
    let mut out: Vec<Object> = Vec::new();
    let mut i: usize = from;
    while i < to
        invariant
            from <= i <= to <= list.len(),
            items == objects_view(list@),
            start == old(env)@,
            env@.len() == start.len(),
            !skip_void ==> out.len() == i - from,
            eval_each(items, start, fuel as nat, from as int, to as int, skip_void) == joined(
                objects_view(out@),
                eval_each(items, env@, fuel as nat, i as int, to as int, skip_void),
            ),
        decreases to - i,
    {
        let ghost acc = objects_view(out@);
        assert(items[i as int] == list[i as int]@);
        match eval_obj(&list[i], env, fuel) {
            Err(e) => {
                return Err(e);
            },
            Ok(v) => {
                let ghost term = v@;
                let keep = !(skip_void && is_void(&v));
                if keep {
                    out.push(v);
                }
                i += 1;
                proof {
                    let rest = eval_each(items, env@, fuel as nat, i as int, to as int, skip_void);
                    if keep {
                        assert(objects_view(out@) =~= acc.push(term));
                        if let Ok(values) = rest.0 {
                            assert(acc.push(term) + values =~= acc + (seq![term] + values));
                        }
                    } else {
                        assert(objects_view(out@) =~= acc);
                    }
                }
            },
        }
    }
    proof {
        assert(objects_view(out@) + Seq::<Term>::empty() =~= objects_view(out@));
    }
    Ok(out)
}

/// Whether `o` is `Void`.
fn is_void(o: &Object) -> (r: bool)
    ensures
        r == (o@ is Void),
{
    match o {
        Object::Void => true,
        _ => false,
    }
}

/// `(if cond then else)`.
pub fn eval_if(list: &Vec<Object>, env: &mut Env, fuel: usize) -> (r: Result<Object, EvalError>)
    ensures
        (result_view(r), final(env)@) == eval_cond(objects_view(list@), old(env)@, fuel as nat),
        final(env)@.len() == old(env)@.len(),
    decreases fuel, 3int, 0int,
{
    if list.len() != 4 {
        return Err(EvalError::ArityMismatch { expected: 3, got: operands(list) });
    }
    let cond = match eval_obj(&list[1], env, fuel) {
        Ok(v) => v,
        Err(e) => {
            return Err(e);
        },
    };
    match cond {
        Object::Bool(b) => if b {
            eval_obj(&list[2], env, fuel)
        } else {
            eval_obj(&list[3], env, fuel)
        },
        _ => Err(EvalError::TypeMismatch { expected: Kind::Bool, got: kind(&cond) }),
    }
}

/// A call of the lambda bound to `s`, with `list[1..]` as argument forms.
pub fn eval_function(s: &str, list: &Vec<Object>, env: &mut Env, fuel: usize) -> (r: Result<
    Object,
    EvalError,
>)
    ensures
        (result_view(r), final(env)@) == eval_call(
            s@,
            objects_view(list@),
            old(env)@,
            fuel as nat,
        ),
        final(env)@.len() == old(env)@.len(),
    decreases fuel, 3int, 0int,
{
    let found = env.get(s);
    proof {
        if found is Some {
            lemma_view_parts(found->Some_0);
        }
    }
    match found {
        None => Err(EvalError::UnboundSymbol { name: String::from_str(s) }),
        Some(Object::Lambda(params, body)) => {
            assert(objects_view(list@).len() == list.len());
            if operands(list) < params.len() {
                return Err(
                    EvalError::ArityMismatch { expected: params.len(), got: operands(list) },
                );
            }
            let mut values = match eval_sequence(list, env, fuel, 1, params.len() + 1, false) {
                Ok(v) => v,
                Err(e) => {
                    return Err(e);
                },
            };
            let ghost base = env@;
            let ghost names = names_view(params@);
            let ghost terms = objects_view(values@);
            proof {
                env.lemma_never_empty();
            }
            let mut outer = Env::new();
            core::mem::swap(env, &mut outer);
            let mut inner = Env::extend(outer);
            let mut k: usize = 0;
            assert(names.take(0) =~= Seq::<Seq<char>>::empty());
            while k < params.len()
                invariant
                    k <= params.len(),
                    values.len() == params.len(),
                    names == names_view(params@),
                    terms.len() == values.len(),
                    forall|j: int| k <= j < values.len() ==> values[j]@ == terms[j],
                    inner@ == seq![call_scope(names.take(k as int), terms)] + base,
                decreases params.len() - k,
            {
                let mut value = Object::Void;
                values.set_and_swap(k, &mut value);
                inner.set(params[k].as_str(), value);
                k += 1;
                proof {
                    assert(names.take(k as int).drop_last() =~= names.take(k - 1));
                    assert(inner@ =~= seq![call_scope(names.take(k as int), terms)] + base);
                }
            }
            assert(names.take(k as int) =~= names);
            let body_list = Object::List(body);
            proof {
                lemma_view_parts(body_list);
            }
            let ghost entered = inner@;
            let r = eval_obj(&body_list, &mut inner, fuel);
            proof {
                assert(inner@.len() == entered.len());
            }
            match inner.into_parent() {
                Some(p) => {
                    *env = p;
                },
                // The scope of the call lies inside the caller's scopes.
                None => {},
            }
            r
        },
        Some(_) => Err(EvalError::NotCallable { name: String::from_str(s) }),
    }
}

/// `(lambda (params...) (body...))`.
pub fn eval_function_define(list: &Vec<Object>) -> (r: Result<Object, EvalError>)
    ensures
        result_view(r) == make_lambda(objects_view(list@)),
{
    if list.len() != 3 {
        return Err(EvalError::MalformedForm { form: Form::Lambda, reason: Flaw::WrongArity });
    }
    proof {
        lemma_view_parts(list[1]);
        lemma_view_parts(list[2]);
    }
    let names = match &list[1] {
        Object::List(params) => {
            let mut names: Vec<String> = Vec::new();
            let mut i: usize = 0;
            while i < params.len()
                invariant
                    i <= params.len(),
                    names.len() == i,
                    list.len() == 3,
                    list[1]@ == Term::List(objects_view(params@)),
                    forall|j: int|
                        0 <= j < i ==> params[j]@ == Term::Symbol(#[trigger] names[j]@),
                decreases params.len() - i,
            {
                match &params[i] {
                    Object::Symbol(s) => {
                        names.push(s.clone());
                    },
                    _ => {
                        assert(!(objects_view(params@)[i as int] is Symbol));
                        return Err(
                            EvalError::MalformedForm {
                                form: Form::Lambda,
                                reason: Flaw::ParameterNotSymbol,
                            },
                        );
                    },
                }
                i += 1;
            }
            proof {
                let terms = objects_view(params@);
                assert forall|j: int| 0 <= j < terms.len() implies (#[trigger] terms[j]) is Symbol by {
                    assert(params[j]@ == Term::Symbol(names[j]@));
                }
                assert(names_view(names@) =~= symbol_names(terms)->Some_0) by {
                    assert forall|j: int| 0 <= j < terms.len() implies names_view(names@)[j]
                        == terms[j]->Symbol_0 by {
                        assert(params[j]@ == Term::Symbol(names[j]@));
                    }
                }
            }
            names
        },
        _ => {
            return Err(
                EvalError::MalformedForm { form: Form::Lambda, reason: Flaw::ParametersNotList },
            );
        },
    };
    let body = match &list[2] {
        Object::List(forms) => clone_objects(forms),
        _ => {
            return Err(EvalError::MalformedForm { form: Form::Lambda, reason: Flaw::BodyNotList });
        },
    };
    let r = Object::Lambda(names, body);
    proof {
        lemma_view_parts(r);
    }
    Ok(r)
}

/// `(def name expr)`.
pub fn eval_define(list: &Vec<Object>, env: &mut Env, fuel: usize) -> (r: Result<Object, EvalError>)
    ensures
        (result_view(r), final(env)@) == eval_def(objects_view(list@), old(env)@, fuel as nat),
        final(env)@.len() == old(env)@.len(),
    decreases fuel, 3int, 0int,
{
    if list.len() != 3 {
        return Err(EvalError::MalformedForm { form: Form::Define, reason: Flaw::WrongArity });
    }
    match &list[1] {
        Object::Symbol(name) => {
            match eval_obj(&list[2], env, fuel) {
                Ok(v) => {
                    proof {
                        env.lemma_never_empty();
                    }
                    env.set(name.as_str(), v);
                    Ok(Object::Void)
                },
                Err(e) => Err(e),
            }
        },
        _ => Err(EvalError::MalformedForm { form: Form::Define, reason: Flaw::TargetNotSymbol }),
    }
}

/// `(op left right)` for a built-in operator.
pub fn eval_binary_op(op: Operator, list: &Vec<Object>, env: &mut Env, fuel: usize) -> (r: Result<
    Object,
    EvalError,
>)
    ensures
        (result_view(r), final(env)@) == eval_operator(
            op,
            objects_view(list@),
            old(env)@,
            fuel as nat,
        ),
        final(env)@.len() == old(env)@.len(),
    decreases fuel, 3int, 0int,
{
    if list.len() != 3 {
        return Err(EvalError::ArityMismatch { expected: 2, got: operands(list) });
    }
    let left = match eval_obj(&list[1], env, fuel) {
        Ok(v) => v,
        Err(e) => {
            return Err(e);
        },
    };
    let right = match eval_obj(&list[2], env, fuel) {
        Ok(v) => v,
        Err(e) => {
            return Err(e);
        },
    };
    let a = match &left {
        Object::Integer(n) => *n,
        _ => {
            return Err(EvalError::TypeMismatch { expected: Kind::Integer, got: kind(&left) });
        },
    };
    let b = match &right {
        Object::Integer(n) => *n,
        _ => {
            return Err(EvalError::TypeMismatch { expected: Kind::Integer, got: kind(&right) });
        },
    };
    compute(op, a, b)
}

} // verus!
