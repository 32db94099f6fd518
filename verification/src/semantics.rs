//! What evaluation means: a function from a term, a chain of scopes and a
//! depth limit to a result and the chain afterwards.

use vstd::prelude::*;
use crate::env::{bind, lemma_bind_then_lookup, lookup, Scope};
use crate::object::Term;
use crate::parser::{parse_text, ParseReason};

verus! {

/// The deepest nesting of evaluations that [`crate::eval::eval`] follows.
pub const MAX_DEPTH: usize = 256;

/// The variant of a value, for reporting a mismatch.
#[derive(Debug, PartialEq, Eq, Clone, Copy, Structural)]
pub enum Kind {
    Void,
    Integer,
    Bool,
    Symbol,
    Lambda,
    List,
}

/// The special form that is malformed.
#[derive(Debug, PartialEq, Eq, Clone, Copy, Structural)]
pub enum Form {
    Define,
    Lambda,
    List,
}

/// What is wrong with a malformed form.
#[derive(Debug, PartialEq, Eq, Clone, Copy, Structural)]
pub enum Flaw {
    /// The form has the wrong number of parts.
    WrongArity,
    /// The name to define is not a symbol.
    TargetNotSymbol,
    /// The parameters are not written as a list.
    ParametersNotList,
    /// A parameter is not a symbol.
    ParameterNotSymbol,
    /// The body is not written as a list.
    BodyNotList,
    /// The list has no head.
    Empty,
}

/// The built-in binary operators.
#[derive(Debug, PartialEq, Eq, Clone, Copy, Structural)]
pub enum Operator {
    Add,
    Sub,
    Mul,
    Div,
    Less,
    Greater,
    Equal,
    NotEqual,
}

/// The rule that the head symbol of a list selects.
#[derive(Debug, PartialEq, Eq, Clone, Copy, Structural)]
pub enum Head {
    Operator(Operator),
    Define,
    If,
    Lambda,
    Call,
}

/// Mathematical model of an evaluation error.
pub enum Fault {
    Parse(ParseReason),
    UnboundSymbol(Seq<char>),
    NotCallable(Seq<char>),
    ArityMismatch { expected: nat, got: nat },
    TypeMismatch { expected: Kind, got: Kind },
    DivisionByZero,
    IntegerOverflow,
    MalformedForm { form: Form, reason: Flaw },
    StackOverflow,
}

/// A result together with the scopes as evaluation left them.
pub type Outcome = (Result<Term, Fault>, Seq<Scope>);

/// The results of a run of terms together with the scopes afterwards.
pub type Outcomes = (Result<Seq<Term>, Fault>, Seq<Scope>);

/// The variant of a term.
pub open spec fn kind_of(t: Term) -> Kind {
    match t {
        Term::Void => Kind::Void,
        Term::Integer(_) => Kind::Integer,
        Term::Bool(_) => Kind::Bool,
        Term::Symbol(_) => Kind::Symbol,
        Term::Lambda(_, _) => Kind::Lambda,
        Term::List(_) => Kind::List,
    }
}

/// The rule that a head symbol selects; any symbol that is no operator and
/// no keyword is a call.
pub open spec fn head_of(s: Seq<char>) -> Head {
    if s == "+"@ {
        Head::Operator(Operator::Add)
    } else if s == "-"@ {
        Head::Operator(Operator::Sub)
    } else if s == "*"@ {
        Head::Operator(Operator::Mul)
    } else if s == "/"@ {
        Head::Operator(Operator::Div)
    } else if s == "<"@ {
        Head::Operator(Operator::Less)
    } else if s == ">"@ {
        Head::Operator(Operator::Greater)
    } else if s == "="@ {
        Head::Operator(Operator::Equal)
    } else if s == "!="@ {
        Head::Operator(Operator::NotEqual)
    } else if s == "def"@ {
        Head::Define
    } else if s == "if"@ {
        Head::If
    } else if s == "lambda"@ {
        Head::Lambda
    } else {
        Head::Call
    }
}

/// An integer result, where it fits in 64 bits.
pub open spec fn in_range(v: int) -> Result<Term, Fault> {
    if i64::MIN <= v <= i64::MAX {
        Ok(Term::Integer(v as i64))
    } else {
        Err(Fault::IntegerOverflow)
    }
}

/// The quotient rounded toward zero, for a divisor other than zero.
pub open spec fn truncated_quotient(a: int, b: int) -> int {
    if a == 0 {
        0
    } else if a > 0 && b > 0 {
        a / b
    } else if a < 0 && b < 0 {
        (-a) / (-b)
    } else if a < 0 {
        -((-a) / b)
    } else {
        -(a / (-b))
    }
}

/// An operator applied to two integers.
pub open spec fn apply_operator(op: Operator, a: i64, b: i64) -> Result<Term, Fault> {
    match op {
        Operator::Add => in_range(a + b),
        Operator::Sub => in_range(a - b),
        Operator::Mul => in_range(a * b),
        Operator::Div => if b == 0 {
            Err(Fault::DivisionByZero)
        } else {
            in_range(truncated_quotient(a as int, b as int))
        },
        Operator::Less => Ok(Term::Bool(a < b)),
        Operator::Greater => Ok(Term::Bool(a > b)),
        Operator::Equal => Ok(Term::Bool(a == b)),
        Operator::NotEqual => Ok(Term::Bool(a != b)),
    }
}

/// An operator applied to two values: the left one is checked first.
pub open spec fn apply_operands(op: Operator, left: Term, right: Term) -> Result<Term, Fault> {
    match left {
        Term::Integer(a) => match right {
            Term::Integer(b) => apply_operator(op, a, b),
            _ => Err(Fault::TypeMismatch { expected: Kind::Integer, got: kind_of(right) }),
        },
        _ => Err(Fault::TypeMismatch { expected: Kind::Integer, got: kind_of(left) }),
    }
}

/// The number of forms that follow the head of a list.
pub open spec fn operand_count(items: Seq<Term>) -> nat {
    if items.len() == 0 {
        0
    } else {
        (items.len() - 1) as nat
    }
}

/// The value of a symbol.
pub open spec fn resolve(name: Seq<char>, env: Seq<Scope>) -> Result<Term, Fault> {
    match lookup(env, name) {
        Some(v) => Ok(v),
        None => Err(Fault::UnboundSymbol(name)),
    }
}

/// The names of a parameter list, where each parameter is a symbol.
pub open spec fn symbol_names(params: Seq<Term>) -> Option<Seq<Seq<char>>> {
    if forall|i: int| 0 <= i < params.len() ==> (#[trigger] params[i]) is Symbol {
        Some(Seq::new(params.len(), |i: int| params[i]->Symbol_0))
    } else {
        None
    }
}

/// The lambda that `(lambda (params...) (body...))` denotes. Nothing is
/// evaluated, and no scope is captured.
pub open spec fn make_lambda(items: Seq<Term>) -> Result<Term, Fault> {
    if items.len() != 3 {
        Err(Fault::MalformedForm { form: Form::Lambda, reason: Flaw::WrongArity })
    } else {
        match items[1] {
            Term::List(params) => match symbol_names(params) {
                Some(names) => match items[2] {
                    Term::List(body) => Ok(Term::Lambda(names, body)),
                    _ => Err(Fault::MalformedForm { form: Form::Lambda, reason: Flaw::BodyNotList }),
                },
                None => Err(
                    Fault::MalformedForm { form: Form::Lambda, reason: Flaw::ParameterNotSymbol },
                ),
            },
            _ => Err(Fault::MalformedForm { form: Form::Lambda, reason: Flaw::ParametersNotList }),
        }
    }
}

/// The scope of a call: the first `params.len()` values bound to the
/// parameters in order, a later parameter of the same name winning.
pub open spec fn call_scope(params: Seq<Seq<char>>, values: Seq<Term>) -> Scope
    decreases params.len(),
{
    if params.len() == 0 || values.len() < params.len() {
        Map::empty()
    } else {
        call_scope(params.drop_last(), values).insert(
            params.last(),
            values[params.len() - 1],
        )
    }
}

/// The chain without its innermost scope.
pub open spec fn leave_scope(scopes: Seq<Scope>) -> Seq<Scope> {
    if scopes.len() > 0 {
        scopes.drop_first()
    } else {
        scopes
    }
}

/// Evaluates a term with `depth` levels of nesting left. Atoms are their own
/// value, a lambda literal gives `Void`, a symbol is looked up, and a list is
/// dispatched on its head.
pub open spec fn eval_term(t: Term, env: Seq<Scope>, depth: nat) -> Outcome
    decreases depth, 1int, 0int,
{
    match t {
        Term::Void => (Ok(Term::Void), env),
        Term::Lambda(_, _) => (Ok(Term::Void), env),
        Term::Bool(_) => (Ok(t), env),
        Term::Integer(_) => (Ok(t), env),
        Term::Symbol(s) => (resolve(s, env), env),
        Term::List(items) => eval_form(items, env, depth),
    }
}

/// Evaluates a list. Each level of nesting, of a form in a form or of a call
/// in a body, takes one from `depth`; at zero the result is `StackOverflow`.
pub open spec fn eval_form(items: Seq<Term>, env: Seq<Scope>, depth: nat) -> Outcome
    decreases depth, 0int, 0int,
{
    if depth == 0 {
        (Err(Fault::StackOverflow), env)
    } else if items.len() == 0 {
        (Err(Fault::MalformedForm { form: Form::List, reason: Flaw::Empty }), env)
    } else {
        let fuel = (depth - 1) as nat;
        match items[0] {
            Term::Symbol(s) => match head_of(s) {
                Head::Operator(op) => eval_operator(op, items, env, fuel),
                Head::Define => eval_def(items, env, fuel),
                Head::If => eval_cond(items, env, fuel),
                Head::Lambda => (make_lambda(items), env),
                Head::Call => eval_call(s, items, env, fuel),
            },
            _ => {
                let each = eval_each(items, env, fuel, 0, items.len() as int, true);
                match each.0 {
                    Ok(values) => (Ok(Term::List(values)), each.1),
                    Err(f) => (Err(f), each.1),
                }
            },
        }
    }
}

/// `(op left right)`: both operands are evaluated, left first, then checked.
pub open spec fn eval_operator(op: Operator, items: Seq<Term>, env: Seq<Scope>, fuel: nat) -> Outcome
    decreases fuel, 3int, 0int,
{
    if items.len() != 3 {
        (Err(Fault::ArityMismatch { expected: 2, got: operand_count(items) }), env)
    } else {
        let left = eval_term(items[1], env, fuel);
        match left.0 {
            Err(f) => (Err(f), left.1),
            Ok(a) => {
                let right = eval_term(items[2], left.1, fuel);
                match right.0 {
                    Err(f) => (Err(f), right.1),
                    Ok(b) => (apply_operands(op, a, b), right.1),
                }
            },
        }
    }
}

/// `(def name expr)`: binds the value of `expr` in the innermost scope.
pub open spec fn eval_def(items: Seq<Term>, env: Seq<Scope>, fuel: nat) -> Outcome
    decreases fuel, 3int, 0int,
{
    if items.len() != 3 {
        (Err(Fault::MalformedForm { form: Form::Define, reason: Flaw::WrongArity }), env)
    } else {
        match items[1] {
            Term::Symbol(name) => {
                let value = eval_term(items[2], env, fuel);
                match value.0 {
                    Ok(v) => (Ok(Term::Void), bind(value.1, name, v)),
                    Err(f) => (Err(f), value.1),
                }
            },
            _ => (
                Err(Fault::MalformedForm { form: Form::Define, reason: Flaw::TargetNotSymbol }),
                env,
            ),
        }
    }
}

/// `(if cond then else)`: only the branch that the condition selects is
/// evaluated.
pub open spec fn eval_cond(items: Seq<Term>, env: Seq<Scope>, fuel: nat) -> Outcome
    decreases fuel, 3int, 0int,
{
    if items.len() != 4 {
        (Err(Fault::ArityMismatch { expected: 3, got: operand_count(items) }), env)
    } else {
        let cond = eval_term(items[1], env, fuel);
        match cond.0 {
            Err(f) => (Err(f), cond.1),
            Ok(Term::Bool(b)) => if b {
                eval_term(items[2], cond.1, fuel)
            } else {
                eval_term(items[3], cond.1, fuel)
            },
            Ok(other) => (
                Err(Fault::TypeMismatch { expected: Kind::Bool, got: kind_of(other) }),
                cond.1,
            ),
        }
    }
}

/// `(name args...)`: the name must be bound to a lambda with at most as many
/// parameters as there are arguments. One argument for each parameter is
/// evaluated in the caller's scopes; the body runs as a list in a new scope
/// inside them, which is dropped afterwards.
pub open spec fn eval_call(name: Seq<char>, items: Seq<Term>, env: Seq<Scope>, fuel: nat) -> Outcome
    decreases fuel, 3int, 0int,
{
    match lookup(env, name) {
        None => (Err(Fault::UnboundSymbol(name)), env),
        Some(Term::Lambda(params, body)) => if operand_count(items) < params.len() {
            (
                Err(
                    Fault::ArityMismatch {
                        expected: params.len(),
                        got: operand_count(items),
                    },
                ),
                env,
            )
        } else {
            let args = eval_each(items, env, fuel, 1, (params.len() + 1) as int, false);
            match args.0 {
                Err(f) => (Err(f), args.1),
                Ok(values) => {
                    let inner = seq![call_scope(params, values)] + args.1;
                    let result = eval_term(Term::List(body), inner, fuel);
                    (result.0, leave_scope(result.1))
                },
            }
        },
        Some(_) => (Err(Fault::NotCallable(name)), env),
    }
}

/// Evaluates `items[from..to]` in order, each in the scopes that the one
/// before left, and stops at the first error. With `skip_void`, `Void`
/// results are left out.
pub open spec fn eval_each(
    items: Seq<Term>,
    env: Seq<Scope>,
    fuel: nat,
    from: int,
    to: int,
    skip_void: bool,
) -> Outcomes
    decreases fuel, 2int, to - from,
{
    if from < 0 || from >= to || to > items.len() {
        (Ok(Seq::empty()), env)
    } else {
        let first = eval_term(items[from], env, fuel);
        match first.0 {
            Err(f) => (Err(f), first.1),
            Ok(v) => {
                let rest = eval_each(items, first.1, fuel, from + 1, to, skip_void);
                match rest.0 {
                    Err(f) => (Err(f), rest.1),
                    Ok(values) => (
                        Ok(
                            if skip_void && v is Void {
                                values
                            } else {
                                seq![v] + values
                            },
                        ),
                        rest.1,
                    ),
                }
            },
        }
    }
}

/// Parses a program text and evaluates its first form with the full depth.
pub open spec fn run(text: Seq<char>, env: Seq<Scope>) -> Outcome {
    match parse_text(text) {
        Err(reason) => (Err(Fault::Parse(reason)), env),
        Ok(t) => eval_term(t, env, MAX_DEPTH as nat),
    }
}

/// Whether evaluating `text` in the scopes `before` gives `result` and leaves
/// the scopes `after`.
pub open spec fn evaluates_to(
    text: Seq<char>,
    before: Seq<Scope>,
    result: Result<Term, Fault>,
    after: Seq<Scope>,
) -> bool {
    (result, after) == run(text, before)
}


/// Each operator glyph and each keyword selects its own rule.
pub proof fn lemma_heads()
    ensures
        head_of("+"@) == Head::Operator(Operator::Add),
        head_of("-"@) == Head::Operator(Operator::Sub),
        head_of("*"@) == Head::Operator(Operator::Mul),
        head_of("/"@) == Head::Operator(Operator::Div),
        head_of("<"@) == Head::Operator(Operator::Less),
        head_of(">"@) == Head::Operator(Operator::Greater),
        head_of("="@) == Head::Operator(Operator::Equal),
        head_of("!="@) == Head::Operator(Operator::NotEqual),
        head_of("def"@) == Head::Define,
        head_of("if"@) == Head::If,
        head_of("lambda"@) == Head::Lambda,
{
    reveal_strlit("+");
    reveal_strlit("-");
    reveal_strlit("*");
    reveal_strlit("/");
    reveal_strlit("<");
    reveal_strlit(">");
    reveal_strlit("=");
    reveal_strlit("!=");
    reveal_strlit("def");
    reveal_strlit("if");
    reveal_strlit("lambda");
    assert("+"@[0] == '+' && "-"@[0] == '-' && "*"@[0] == '*' && "/"@[0] == '/');
    assert("<"@[0] == '<' && ">"@[0] == '>' && "="@[0] == '=' && "!="@[0] == '!');
    assert("def"@[0] == 'd' && "if"@[0] == 'i' && "lambda"@[0] == 'l');
}

/// Evaluation is a function of the program text and the scopes it starts
/// from: two evaluations of one text from equal scopes, a fresh environment
/// among them, give the same result and leave the same scopes.
pub proof fn lemma_evaluation_is_deterministic(
    text: Seq<char>,
    before: Seq<Scope>,
    first: Outcome,
    second: Outcome,
)
    requires
        evaluates_to(text, before, first.0, first.1),
        evaluates_to(text, before, second.0, second.1),
    ensures
        first == second,
{
}

/// A symbol that no scope binds evaluates to `UnboundSymbol` with its name,
/// at any depth, and leaves the scopes as they were.
pub proof fn lemma_unbound_symbol(name: Seq<char>, env: Seq<Scope>, depth: nat)
    requires
        lookup(env, name) is None,
    ensures
        eval_term(Term::Symbol(name), env, depth) == (
            Err::<Term, Fault>(Fault::UnboundSymbol(name)),
            env,
        ),
{
}

/// A call whose head no scope binds fails with `UnboundSymbol`, whatever
/// its arguments are; none of them is evaluated.
pub proof fn lemma_unbound_call(name: Seq<char>, items: Seq<Term>, env: Seq<Scope>, depth: nat)
    requires
        depth > 0,
        items.len() > 0,
        items[0] == Term::Symbol(name),
        head_of(name) == Head::Call,
        lookup(env, name) is None,
    ensures
        eval_form(items, env, depth) == (Err::<Term, Fault>(Fault::UnboundSymbol(name)), env),
{
}

/// A call with fewer arguments than the lambda has parameters fails with
/// `ArityMismatch`; no argument is evaluated and the scopes stay as they were.
pub proof fn lemma_too_few_arguments(
    name: Seq<char>,
    items: Seq<Term>,
    env: Seq<Scope>,
    depth: nat,
    params: Seq<Seq<char>>,
    body: Seq<Term>,
)
    requires
        depth > 0,
        items.len() > 0,
        items[0] == Term::Symbol(name),
        head_of(name) == Head::Call,
        lookup(env, name) == Some(Term::Lambda(params, body)),
        operand_count(items) < params.len(),
    ensures
        eval_form(items, env, depth) == (
            Err::<Term, Fault>(
                Fault::ArityMismatch { expected: params.len(), got: operand_count(items) },
            ),
            env,
        ),
{
}

/// Dividing by zero is `DivisionByZero`, whatever the dividend.
pub proof fn lemma_division_by_zero(a: i64)
    ensures
        apply_operator(Operator::Div, a, 0) == Err::<Term, Fault>(Fault::DivisionByZero),
{
}

/// An operator never fails in another way than by a zero divisor or a result
/// out of range, and a comparison never fails.
pub proof fn lemma_operator_results(op: Operator, a: i64, b: i64)
    ensures
        match apply_operator(op, a, b) {
            Ok(Term::Integer(_)) => op == Operator::Add || op == Operator::Sub || op
                == Operator::Mul || op == Operator::Div,
            Ok(Term::Bool(_)) => op == Operator::Less || op == Operator::Greater || op
                == Operator::Equal || op == Operator::NotEqual,
            Ok(_) => false,
            Err(f) => f == Fault::DivisionByZero && op == Operator::Div && b == 0 || f
                == Fault::IntegerOverflow,
        },
{
}

/// The quotient is rounded toward zero: what it leaves of the dividend has
/// the sign of the dividend and is smaller in magnitude than the divisor.
pub proof fn lemma_truncated_quotient(a: int, b: int)
    requires
        b != 0,
    ensures
        ({
            let q = truncated_quotient(a, b);
            let r = a - q * b;
            &&& (a >= 0 ==> 0 <= r)
            &&& (a <= 0 ==> r <= 0)
            &&& (b > 0 ==> -b < r < b)
            &&& (b < 0 ==> b < r < -b)
        }),
{
    let q = truncated_quotient(a, b);
    if a == 0 {
    } else if a > 0 && b > 0 {
        vstd::arithmetic::div_mod::lemma_fundamental_div_mod(a, b);
        vstd::arithmetic::div_mod::lemma_mod_bound(a, b);
    } else if a < 0 && b < 0 {
        vstd::arithmetic::div_mod::lemma_fundamental_div_mod(-a, -b);
        vstd::arithmetic::div_mod::lemma_mod_bound(-a, -b);
        assert(q * b == -((-b) * ((-a) / (-b)))) by (nonlinear_arith)
            requires
                q == (-a) / (-b),
        ;
    } else if a < 0 {
        vstd::arithmetic::div_mod::lemma_fundamental_div_mod(-a, b);
        vstd::arithmetic::div_mod::lemma_mod_bound(-a, b);
        assert(q * b == -(b * ((-a) / b))) by (nonlinear_arith)
            requires
                q == -((-a) / b),
        ;
    } else {
        vstd::arithmetic::div_mod::lemma_fundamental_div_mod(a, -b);
        vstd::arithmetic::div_mod::lemma_mod_bound(a, -b);
        assert(q * b == (-b) * (a / (-b))) by (nonlinear_arith)
            requires
                q == -(a / (-b)),
        ;
    }
}

/// An `if` whose condition is true gives what its second operand gives, in
/// the scopes that the condition left: the third operand is not evaluated,
/// so neither its errors nor its bindings show.
pub proof fn lemma_if_true(items: Seq<Term>, env: Seq<Scope>, depth: nat)
    requires
        depth > 0,
        items.len() == 4,
        items[0] == Term::Symbol("if"@),
        eval_term(items[1], env, (depth - 1) as nat).0 == Ok::<Term, Fault>(Term::Bool(true)),
    ensures
        eval_form(items, env, depth) == eval_term(
            items[2],
            eval_term(items[1], env, (depth - 1) as nat).1,
            (depth - 1) as nat,
        ),
{
    lemma_heads();
}

/// An `if` whose condition is false gives what its third operand gives; the
/// second operand is not evaluated.
pub proof fn lemma_if_false(items: Seq<Term>, env: Seq<Scope>, depth: nat)
    requires
        depth > 0,
        items.len() == 4,
        items[0] == Term::Symbol("if"@),
        eval_term(items[1], env, (depth - 1) as nat).0 == Ok::<Term, Fault>(Term::Bool(false)),
    ensures
        eval_form(items, env, depth) == eval_term(
            items[3],
            eval_term(items[1], env, (depth - 1) as nat).1,
            (depth - 1) as nat,
        ),
{
    lemma_heads();
}

/// After `(def name expr)` succeeds, `name` evaluates to the value of `expr`:
/// a definition of a name that is already bound replaces its value.
pub proof fn lemma_define_then_look_up(
    name: Seq<char>,
    expr: Term,
    env: Seq<Scope>,
    depth: nat,
)
    requires
        depth > 0,
        env.len() > 0,
        eval_term(expr, env, (depth - 1) as nat).0 is Ok,
    ensures
        ({
            let value = eval_term(expr, env, (depth - 1) as nat);
            let defined = eval_form(seq![Term::Symbol("def"@), Term::Symbol(name), expr], env, depth);
            &&& defined.0 == Ok::<Term, Fault>(Term::Void)
            &&& defined.1 == bind(value.1, name, value.0->Ok_0)
            &&& forall|d: nat|
                eval_term(Term::Symbol(name), defined.1, d) == (
                    Ok::<Term, Fault>(value.0->Ok_0),
                    defined.1,
                )
        }),
{
    lemma_heads();
    let value = eval_term(expr, env, (depth - 1) as nat);
    lemma_term_writes_innermost(expr, env, (depth - 1) as nat);
    lemma_bind_then_lookup(value.1, name, value.0->Ok_0);
}


/// Whether two chains have the same length and differ at most in their
/// innermost scope.
pub open spec fn same_enclosing(before: Seq<Scope>, after: Seq<Scope>) -> bool {
    &&& after.len() == before.len()
    &&& forall|i: int| 1 <= i < before.len() ==> #[trigger] after[i] == before[i]
}

/// Evaluating a term writes to the innermost scope only: the chain keeps its
/// length, and every enclosing scope stays as it was, whether the evaluation
/// succeeds or fails. The scope that a call adds is gone when the call ends.
pub proof fn lemma_term_writes_innermost(t: Term, env: Seq<Scope>, depth: nat)
    ensures
        same_enclosing(env, eval_term(t, env, depth).1),
    decreases depth, 1int, 0int,
{
    match t {
        Term::List(items) => {
            lemma_form_writes_innermost(items, env, depth);
        },
        _ => {},
    }
}

/// Evaluating a list writes to the innermost scope only.
pub proof fn lemma_form_writes_innermost(items: Seq<Term>, env: Seq<Scope>, depth: nat)
    ensures
        same_enclosing(env, eval_form(items, env, depth).1),
    decreases depth, 0int, 0int,
{
    if depth > 0 && items.len() > 0 {
        let fuel = (depth - 1) as nat;
        match items[0] {
            Term::Symbol(s) => match head_of(s) {
                Head::Operator(op) => {
                    if items.len() == 3 {
                        let left = eval_term(items[1], env, fuel);
                        lemma_term_writes_innermost(items[1], env, fuel);
                        lemma_term_writes_innermost(items[2], left.1, fuel);
                    }
                },
                Head::Define => {
                    if items.len() == 3 {
                        lemma_term_writes_innermost(items[2], env, fuel);
                    }
                },
                Head::If => {
                    if items.len() == 4 {
                        let cond = eval_term(items[1], env, fuel);
                        lemma_term_writes_innermost(items[1], env, fuel);
                        lemma_term_writes_innermost(items[2], cond.1, fuel);
                        lemma_term_writes_innermost(items[3], cond.1, fuel);
                    }
                },
                Head::Lambda => {},
                Head::Call => {
                    lemma_call_leaves_caller(s, items, env, fuel);
                },
            },
            _ => {
                lemma_each_writes_innermost(items, env, fuel, 0, items.len() as int, true);
            },
        }
    }
}

/// A call leaves the caller's scopes as the evaluation of its arguments left
/// them: what the body binds is bound in the scope of the call, which is
/// dropped.
pub proof fn lemma_call_leaves_caller(
    name: Seq<char>,
    items: Seq<Term>,
    env: Seq<Scope>,
    fuel: nat,
)
    ensures
        same_enclosing(env, eval_call(name, items, env, fuel).1),
        lookup(env, name) matches Some(Term::Lambda(params, _)) ==> (operand_count(items)
            >= params.len() ==> eval_call(name, items, env, fuel).1 == eval_each(
            items,
            env,
            fuel,
            1,
            (params.len() + 1) as int,
            false,
        ).1),
    decreases fuel, 3int, 0int,
{
    match lookup(env, name) {
        Some(Term::Lambda(params, body)) => {
            if operand_count(items) >= params.len() {
                let args = eval_each(items, env, fuel, 1, (params.len() + 1) as int, false);
                lemma_each_writes_innermost(items, env, fuel, 1, (params.len() + 1) as int, false);
                if let Ok(values) = args.0 {
                    let inner = seq![call_scope(params, values)] + args.1;
                    let result = eval_term(Term::List(body), inner, fuel);
                    lemma_term_writes_innermost(Term::List(body), inner, fuel);
                    assert forall|i: int| 0 <= i < args.1.len() implies leave_scope(result.1)[i]
                        == args.1[i] by {
                        assert(result.1[i + 1] == inner[i + 1]);
                    }
                    assert(leave_scope(result.1) =~= args.1);
                }
            }
        },
        _ => {},
    }
}

/// Evaluating a run of terms writes to the innermost scope only.
pub proof fn lemma_each_writes_innermost(
    items: Seq<Term>,
    env: Seq<Scope>,
    fuel: nat,
    from: int,
    to: int,
    skip_void: bool,
)
    ensures
        same_enclosing(env, eval_each(items, env, fuel, from, to, skip_void).1),
    decreases fuel, 2int, to - from,
{
    if !(from < 0 || from >= to || to > items.len()) {
        let first = eval_term(items[from], env, fuel);
        lemma_term_writes_innermost(items[from], env, fuel);
        if first.0 is Ok {
            lemma_each_writes_innermost(items, first.1, fuel, from + 1, to, skip_void);
        }
    }
}

} // verus!
