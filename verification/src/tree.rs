use std::collections::VecDeque;
use vstd::prelude::*;

verus! {

/// A tiny expression language over booleans and 32-bit integers.
#[derive(Debug, PartialEq, Eq)]
pub enum Expr {
    True,
    False,
    Int(i32),
    Add1(Box<Expr>),
    Eq(Box<Expr>, Box<Expr>),
    Neg(Box<Expr>),
}

impl Clone for Expr {
    /// A deep copy: the copy is the same expression tree.
    fn clone(&self) -> (r: Self)
        ensures
            r == *self,
        decreases self,
    {
        match self {
            Expr::True => Expr::True,
            Expr::False => Expr::False,
            Expr::Int(i) => Expr::Int(*i),
            Expr::Add1(e) => Expr::Add1(Box::new((**e).clone())),
            Expr::Eq(l, r) => Expr::Eq(Box::new((**l).clone()), Box::new((**r).clone())),
            Expr::Neg(e) => Expr::Neg(Box::new((**e).clone())),
        }
    }
}

/// The result of evaluating an [`Expr`].
#[derive(Debug, Copy, Clone, PartialEq, Eq, Structural)]
pub enum Value {
    Bool(bool),
    Int(i32),
}

pub fn _true() -> (e: Expr)
    ensures
        e == Expr::True,
{
    Expr::True
}

pub fn _false() -> (e: Expr)
    ensures
        e == Expr::False,
{
    Expr::False
}

pub fn _int(i: i32) -> (e: Expr)
    ensures
        e == Expr::Int(i),
{
    Expr::Int(i)
}

pub fn add1(e: Expr) -> (r: Expr)
    ensures
        r == Expr::Add1(Box::new(e)),
{
    Expr::Add1(Box::new(e))
}

pub fn eq(left: Expr, right: Expr) -> (r: Expr)
    ensures
        r == Expr::Eq(Box::new(left), Box::new(right)),
{
    Expr::Eq(Box::new(left), Box::new(right))
}

pub fn neg(e: Expr) -> (r: Expr)
    ensures
        r == Expr::Neg(Box::new(e)),
{
    Expr::Neg(Box::new(e))
}


impl Value {
    /// The expression that denotes this value.
    pub open spec fn spec_as_expr(self) -> Expr {
        match self {
            Value::Bool(true) => Expr::True,
            Value::Bool(false) => Expr::False,
            Value::Int(i) => Expr::Int(i),
        }
    }

    pub fn as_bool(&self) -> (r: Option<bool>)
        ensures
            r == (match *self {
                Value::Bool(b) => Some(b),
                Value::Int(_) => None::<bool>,
            }),
    {
        if let Value::Bool(b) = self {
            Some(*b)
        } else {
            None
        }
    }

    pub fn as_int(&self) -> (r: Option<i32>)
        ensures
            r == (match *self {
                Value::Int(i) => Some(i),
                Value::Bool(_) => None::<i32>,
            }),
    {
        if let Value::Int(i) = self {
            Some(*i)
        } else {
            None
        }
    }

    pub fn as_expr(&self) -> (e: Expr)
        ensures
            e == self.spec_as_expr(),
    {
        match self {
            Value::Bool(b) => {
                if *b {
                    _true()
                } else {
                    _false()
                }
            },
            Value::Int(i) => _int(*i),
        }
    }
}

/// Small-step reduction semantics: either a value, or the residual
/// expression in which every subterm that could be reduced has been reduced.
pub open spec fn spec_reduce(e: Expr) -> Result<Value, Expr>
    decreases e,
{
    match e {
        Expr::True => Ok(Value::Bool(true)),
        Expr::False => Ok(Value::Bool(false)),
        Expr::Int(i) => Ok(Value::Int(i)),
        Expr::Add1(x) => match spec_reduce(*x) {
            Ok(Value::Int(i)) => Ok(Value::Int((i + 1) as i32)),
            Ok(v) => Err(Expr::Add1(Box::new(v.spec_as_expr()))),
            Err(r) => Err(Expr::Add1(Box::new(r))),
        },
        Expr::Eq(l, r) => match spec_reduce(*l) {
            Ok(Value::Int(i)) => match spec_reduce(*r) {
                Ok(Value::Int(j)) => Ok(Value::Bool(i == j)),
                Ok(v) => Err(Expr::Eq(Box::new(Expr::Int(i)), Box::new(v.spec_as_expr()))),
                Err(rr) => Err(Expr::Eq(Box::new(Expr::Int(i)), Box::new(rr))),
            },
            Ok(v) => Err(Expr::Eq(Box::new(v.spec_as_expr()), r)),
            Err(lr) => Err(Expr::Eq(Box::new(lr), r)),
        },
        Expr::Neg(x) => match spec_reduce(*x) {
            Ok(Value::Bool(b)) => Ok(Value::Bool(!b)),
            Ok(v) => Err(Expr::Neg(Box::new(v.spec_as_expr()))),
            Err(r) => Err(Expr::Neg(Box::new(r))),
        },
    }
}

/// Reduction reaches an `add1` of `i32::MAX`, where the increment overflows.
pub open spec fn reduce_overflows(e: Expr) -> bool
    decreases e,
{
    match e {
        Expr::True | Expr::False | Expr::Int(_) => false,
        Expr::Add1(x) => reduce_overflows(*x) || spec_reduce(*x) == Ok::<Value, Expr>(
            Value::Int(i32::MAX),
        ),
        Expr::Eq(l, r) => reduce_overflows(*l) || (spec_reduce(*l) matches Ok(Value::Int(_))
            && reduce_overflows(*r)),
        Expr::Neg(x) => reduce_overflows(*x),
    }
}

impl Expr {
    pub fn reduce(&self) -> (r: Result<Value, Expr>)
        requires
            !reduce_overflows(*self),
        ensures
            r == spec_reduce(*self),
        decreases self,
    {
        match self {
            Expr::True => Ok(Value::Bool(true)),
            Expr::False => Ok(Value::Bool(false)),
            Expr::Int(i) => Ok(Value::Int(*i)),
            Expr::Add1(e) => {
                match e.reduce() {
                    Ok(v) => {
                        if let Some(i) = v.as_int() {
                            Ok(Value::Int(i + 1))
                        } else {
                            Err(add1(v.as_expr()))
                        }
                    },
                    Err(e) => Err(add1(e)),
                }
            },
            Expr::Eq(l, r) => {
                let left_result = match l.reduce() {
                    Ok(Value::Int(i)) => i,
                    Ok(v) => return Err(eq(v.as_expr(), (**r).clone())),
                    Err(e) => return Err(eq(e, (**r).clone())),
                };
                let right_result = match r.reduce() {
                    Ok(Value::Int(i)) => i,
                    Ok(v) => return Err(eq(_int(left_result), v.as_expr())),
                    Err(e) => return Err(eq(_int(left_result), e)),
                };
                Ok(Value::Bool(left_result == right_result))
            },
            Expr::Neg(e) => {
                match e.reduce() {
                    Ok(Value::Bool(b)) => Ok(Value::Bool(!b)),
                    Ok(v) => Err(neg(v.as_expr())),
                    Err(e) => Err(neg(e)),
                }
            },
        }
    }
}


/// What big-step evaluation of an expression comes to.
#[derive(Debug, Copy, Clone, PartialEq, Eq, Structural)]
pub enum EvalOutcome {
    /// Evaluation produced this value.
    Done(Value),
    /// An operator met an operand of the wrong kind.
    Stuck,
    /// An `add1` met `i32::MAX`.
    Overflow,
}

/// Big-step, left-to-right evaluation: both operands of `eq` are evaluated
/// before their kinds are checked.
pub open spec fn spec_eval(e: Expr) -> EvalOutcome
    decreases e,
{
    match e {
        Expr::True => EvalOutcome::Done(Value::Bool(true)),
        Expr::False => EvalOutcome::Done(Value::Bool(false)),
        Expr::Int(i) => EvalOutcome::Done(Value::Int(i)),
        Expr::Add1(x) => match spec_eval(*x) {
            EvalOutcome::Done(Value::Int(i)) => if i == i32::MAX {
                EvalOutcome::Overflow
            } else {
                EvalOutcome::Done(Value::Int((i + 1) as i32))
            },
            EvalOutcome::Done(Value::Bool(_)) => EvalOutcome::Stuck,
            o => o,
        },
        Expr::Eq(l, r) => match spec_eval(*l) {
            EvalOutcome::Done(a) => match spec_eval(*r) {
                EvalOutcome::Done(b) => spec_compare(a, b),
                o => o,
            },
            o => o,
        },
        Expr::Neg(x) => match spec_eval(*x) {
            EvalOutcome::Done(Value::Bool(b)) => EvalOutcome::Done(Value::Bool(!b)),
            EvalOutcome::Done(Value::Int(_)) => EvalOutcome::Stuck,
            o => o,
        },
    }
}

/// Integer equality of two values; stuck unless both are integers.
pub open spec fn spec_compare(a: Value, b: Value) -> EvalOutcome {
    match (a, b) {
        (Value::Int(x), Value::Int(y)) => EvalOutcome::Done(Value::Bool(x == y)),
        _ => EvalOutcome::Stuck,
    }
}

/// The value an outcome yields, if any.
pub open spec fn outcome_value(o: EvalOutcome) -> Option<Value> {
    match o {
        EvalOutcome::Done(v) => Some(v),
        _ => None,
    }
}

/// One pending step of the evaluation machine.
#[derive(Debug)]
pub enum ContFrame<'a> {
    /// Add one to the value being returned.
    Add1,
    /// The left operand of an `eq` is being returned; the right one is next.
    EqSnd(&'a Expr),
    /// The right operand of an `eq` is being returned; this is the left one.
    Eq(Value),
    /// Negate the value being returned.
    Neg,
}

/// State of the evaluation machine: evaluating an expression, or returning
/// a value to the pending frames (innermost frame last).
#[derive(Debug)]
pub enum ContStack<'a> {
    Eval(&'a Expr, VecDeque<ContFrame<'a>>),
    Cont(VecDeque<ContFrame<'a>>, Value),
}

/// What returning `v` to the frames `st` comes to.
pub open spec fn spec_run_cont<'a>(st: Seq<ContFrame<'a>>, v: Value) -> EvalOutcome
    decreases st.len(),
{
    if st.len() == 0 {
        EvalOutcome::Done(v)
    } else {
        let rest = st.drop_last();
        match st.last() {
            ContFrame::Add1 => match v {
                Value::Int(i) => if i == i32::MAX {
                    EvalOutcome::Overflow
                } else {
                    spec_run_cont(rest, Value::Int((i + 1) as i32))
                },
                Value::Bool(_) => EvalOutcome::Stuck,
            },
            ContFrame::EqSnd(r) => match spec_eval(*r) {
                EvalOutcome::Done(b) => match spec_compare(v, b) {
                    EvalOutcome::Done(c) => spec_run_cont(rest, c),
                    o => o,
                },
                o => o,
            },
            ContFrame::Eq(a) => match spec_compare(a, v) {
                EvalOutcome::Done(c) => spec_run_cont(rest, c),
                o => o,
            },
            ContFrame::Neg => match v {
                Value::Bool(b) => spec_run_cont(rest, Value::Bool(!b)),
                Value::Int(_) => EvalOutcome::Stuck,
            },
        }
    }
}

/// What running the machine from state `s` comes to.
pub open spec fn spec_state_outcome<'a>(s: ContStack<'a>) -> EvalOutcome {
    match s {
        ContStack::Eval(e, st) => match spec_eval(*e) {
            EvalOutcome::Done(v) => spec_run_cont(st@, v),
            o => o,
        },
        ContStack::Cont(st, v) => spec_run_cont(st@, v),
    }
}

pub open spec fn expr_size(e: Expr) -> nat
    decreases e,
{
    match e {
        Expr::True | Expr::False | Expr::Int(_) => 1,
        Expr::Add1(x) => 1 + expr_size(*x),
        Expr::Eq(l, r) => 1 + expr_size(*l) + expr_size(*r),
        Expr::Neg(x) => 1 + expr_size(*x),
    }
}

pub open spec fn frame_weight<'a>(f: ContFrame<'a>) -> nat {
    match f {
        ContFrame::EqSnd(r) => 3 * expr_size(*r) + 2,
        _ => 1,
    }
}

pub open spec fn frames_weight<'a>(st: Seq<ContFrame<'a>>) -> nat
    decreases st.len(),
{
    if st.len() == 0 {
        0
    } else {
        frames_weight(st.drop_last()) + frame_weight(st.last())
    }
}

/// A measure that every machine step decreases.
pub open spec fn state_measure<'a>(s: ContStack<'a>) -> nat {
    match s {
        ContStack::Eval(e, st) => 3 * expr_size(*e) + frames_weight(st@),
        ContStack::Cont(st, _) => frames_weight(st@),
    }
}

proof fn lemma_push_frame<'a>(st: Seq<ContFrame<'a>>, f: ContFrame<'a>)
    ensures
        st.push(f).drop_last() == st,
        st.push(f).last() == f,
        frames_weight(st.push(f)) == frames_weight(st) + frame_weight(f),
{
    assert(st.push(f).drop_last() =~= st);
}

impl Expr {
    /// Evaluates the expression on an explicit continuation stack.
    pub fn evaluate(&self) -> (r: Option<Value>)
        requires
            spec_eval(*self) != EvalOutcome::Overflow,
        ensures
            r == outcome_value(spec_eval(*self)),
    {
        let mut continuation = ContStack::Eval(self, VecDeque::new());
        proof {
            assert(frames_weight(Seq::<ContFrame>::empty()) == 0);
        }
        loop
            invariant
                spec_state_outcome(continuation) == spec_eval(*self),
                spec_eval(*self) != EvalOutcome::Overflow,
            decreases state_measure(continuation),
        {
            match continuation {
                ContStack::Eval(expr, mut stack) => {
                    let ghost st0 = stack@;
                    continuation = match expr {
                        Expr::True => ContStack::Cont(stack, Value::Bool(true)),
                        Expr::False => ContStack::Cont(stack, Value::Bool(false)),
                        Expr::Int(i) => ContStack::Cont(stack, Value::Int(*i)),
                        Expr::Add1(e) => {
                            stack.push_back(ContFrame::Add1);
                            proof {
                                lemma_push_frame(st0, ContFrame::Add1);
                            }
                            ContStack::Eval(&**e, stack)
                        },
                        Expr::Eq(e1, e2) => {
                            stack.push_back(ContFrame::EqSnd(&**e2));
                            proof {
                                lemma_push_frame(st0, ContFrame::EqSnd(&**e2));
                            }
                            ContStack::Eval(&**e1, stack)
                        },
                        Expr::Neg(e) => {
                            stack.push_back(ContFrame::Neg);
                            proof {
                                lemma_push_frame(st0, ContFrame::Neg);
                            }
                            ContStack::Eval(&**e, stack)
                        },
                    };
                },
                ContStack::Cont(mut stack, value) => {
                    let ghost st0 = stack@;
                    if let Some(frame) = stack.pop_back() {
                        proof {
                            assert(st0 == stack@.push(frame));
                            lemma_push_frame(stack@, frame);
                        }
                        continuation = match frame {
                            ContFrame::Add1 => match value.as_int() {
                                Some(i) => ContStack::Cont(stack, Value::Int(i + 1)),
                                None => return None,
                            },
                            ContFrame::EqSnd(e) => {
                                let ghost st1 = stack@;
                                stack.push_back(ContFrame::Eq(value));
                                proof {
                                    lemma_push_frame(st1, ContFrame::Eq(value));
                                }
                                ContStack::Eval(e, stack)
                            },
                            ContFrame::Eq(j) => match (value.as_int(), j.as_int()) {
                                (Some(a), Some(b)) => ContStack::Cont(stack, Value::Bool(a == b)),
                                _ => return None,
                            },
                            ContFrame::Neg => match value.as_bool() {
                                Some(b) => ContStack::Cont(stack, Value::Bool(!b)),
                                None => return None,
                            },
                        };
                    } else {
                        return Some(value);
                    }
                },
            }
        }
    }
}


/// The evaluation machine and reduction agree: evaluation yields a value
/// exactly when reduction does, and then the same value.
pub proof fn lemma_evaluate_agrees_with_reduce(e: Expr)
    requires
        !reduce_overflows(e),
        spec_eval(e) != EvalOutcome::Overflow,
    ensures
        outcome_value(spec_eval(e)) == (match spec_reduce(e) {
            Ok(v) => Some(v),
            Err(_) => None::<Value>,
        }),
        spec_eval(e) != EvalOutcome::Stuck <==> spec_reduce(e) is Ok,
    decreases e,
{
    match e {
        Expr::Add1(x) => {
            lemma_evaluate_agrees_with_reduce(*x);
        },
        Expr::Neg(x) => {
            lemma_evaluate_agrees_with_reduce(*x);
        },
        Expr::Eq(l, r) => {
            lemma_evaluate_agrees_with_reduce(*l);
            if spec_eval(*l) matches EvalOutcome::Done(Value::Int(_)) {
                lemma_evaluate_agrees_with_reduce(*r);
            }
        },
        _ => {},
    }
}

/// A value's expression reduces and evaluates back to the value.
pub proof fn lemma_value_expr_roundtrip(v: Value)
    ensures
        spec_reduce(v.spec_as_expr()) == Ok::<Value, Expr>(v),
        spec_eval(v.spec_as_expr()) == EvalOutcome::Done(v),
        !reduce_overflows(v.spec_as_expr()),
{
}

/// What reduction leaves behind cannot be reduced any further: reducing
/// a residual gives back the same residual.
pub proof fn lemma_residual_is_normal(e: Expr)
    requires
        !reduce_overflows(e),
    ensures
        spec_reduce(e) matches Err(r) ==> spec_reduce(r) == Err::<Value, Expr>(r) && !reduce_overflows(r),
    decreases e,
{
    match e {
        Expr::Add1(x) => {
            lemma_residual_is_normal(*x);
            if let Ok(v) = spec_reduce(*x) {
                lemma_value_expr_roundtrip(v);
            }
        },
        Expr::Neg(x) => {
            lemma_residual_is_normal(*x);
            if let Ok(v) = spec_reduce(*x) {
                lemma_value_expr_roundtrip(v);
            }
        },
        Expr::Eq(l, r) => {
            lemma_residual_is_normal(*l);
            if let Ok(v) = spec_reduce(*l) {
                lemma_value_expr_roundtrip(v);
                if v is Int {
                    lemma_residual_is_normal(*r);
                    if let Ok(w) = spec_reduce(*r) {
                        lemma_value_expr_roundtrip(w);
                    }
                }
            }
        },
        _ => {},
    }
}


/// `eq` of two integer-valued operands is integer equality: both by
/// evaluation and by reduction, the result is whether the two integers are
/// equal. In particular it is symmetric and false on distinct integers.
pub proof fn lemma_eq_is_integer_equality(l: Expr, r: Expr, i: i32, j: i32)
    requires
        spec_eval(l) == EvalOutcome::Done(Value::Int(i)),
        spec_eval(r) == EvalOutcome::Done(Value::Int(j)),
    ensures
        spec_eval(Expr::Eq(Box::new(l), Box::new(r))) == EvalOutcome::Done(Value::Bool(i == j)),
        spec_eval(Expr::Eq(Box::new(r), Box::new(l))) == spec_eval(Expr::Eq(Box::new(l), Box::new(r))),
        i != j ==> spec_eval(Expr::Eq(Box::new(l), Box::new(r))) == EvalOutcome::Done(Value::Bool(false)),
{
}

/// Reducing `eq` of two integer literals gives whether they are equal.
pub proof fn lemma_eq_reduces_to_integer_equality(i: i32, j: i32)
    ensures
        spec_reduce(Expr::Eq(Box::new(Expr::Int(i)), Box::new(Expr::Int(j)))) == Ok::<Value, Expr>(
            Value::Bool(i == j),
        ),
        spec_reduce(Expr::Eq(Box::new(Expr::Int(i)), Box::new(Expr::Int(j)))) == spec_reduce(
            Expr::Eq(Box::new(Expr::Int(j)), Box::new(Expr::Int(i))),
        ),
        spec_eval(Expr::Eq(Box::new(Expr::Int(i)), Box::new(Expr::Int(j)))) == EvalOutcome::Done(
            Value::Bool(i == j),
        ),
{
    assert(spec_reduce(Expr::Int(i)) == Ok::<Value, Expr>(Value::Int(i)));
    assert(spec_reduce(Expr::Int(j)) == Ok::<Value, Expr>(Value::Int(j)));
    assert(spec_eval(Expr::Int(i)) == EvalOutcome::Done(Value::Int(i)));
    assert(spec_eval(Expr::Int(j)) == EvalOutcome::Done(Value::Int(j)));
}

/// A stuck operand keeps the operator around it in the residual: when `x`
/// reduces to the residual `r`, `add1(x)` reduces to `add1(r)` and
/// `neg(x)` to `neg(r)`; an `eq` whose left operand is stuck keeps its
/// right operand as it was.
pub proof fn lemma_residual_keeps_operator(x: Expr, y: Expr)
    ensures
        spec_reduce(x) matches Err(r) ==> spec_reduce(Expr::Add1(Box::new(x))) == Err::<Value, Expr>(
            Expr::Add1(Box::new(r)),
        ),
        spec_reduce(x) matches Err(r) ==> spec_reduce(Expr::Neg(Box::new(x))) == Err::<Value, Expr>(
            Expr::Neg(Box::new(r)),
        ),
        spec_reduce(x) matches Err(r) ==> spec_reduce(Expr::Eq(Box::new(x), Box::new(y))) == Err::<Value, Expr>(
            Expr::Eq(Box::new(r), Box::new(y)),
        ),
{
}

/// The residual of a stuck expression has the same outermost constructor
/// as the expression.
pub proof fn lemma_residual_same_constructor(e: Expr)
    ensures
        spec_reduce(e) matches Err(r) ==> match (e, r) {
            (Expr::Add1(_), Expr::Add1(_)) => true,
            (Expr::Neg(_), Expr::Neg(_)) => true,
            (Expr::Eq(_, _), Expr::Eq(_, _)) => true,
            _ => false,
        },
{
}

} // verus!
