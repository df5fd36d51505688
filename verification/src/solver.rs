//! Evaluation: the big-step semantics of the language as a total function
//! from an environment and an expression to a value or a fault.

use crate::derivation::derivation;
use crate::expr::{
    all_values, bind, lemma_value_model, value_text, BinOp, BindingModel, Env, Expr, ExprModel,
    Form, Prim, Unary, Value,
};
use std::ops::{Add, Mul, Neg, Sub};
use vstd::prelude::*;
use vstd::std_specs::ops::{AddSpecImpl, MulSpecImpl, NegSpecImpl, SubSpecImpl};
use vstd::string::StringExecFns;

verus! {

/// The faults of evaluation. Each names the error rule that concludes the
/// derivation of the faulty expression. Evaluation reports all of them but
/// `IfError` and `IfFError`: a fault of a condition is passed on under its
/// own name, and a fault of either branch is reported as `IfTError`.
#[derive(Debug, Clone, Copy, PartialEq, Eq, Structural)]
pub enum EvalError {
    IfInt,
    PlusBoolL,
    PlusBoolR,
    MinusBoolL,
    MinusBoolR,
    TimesBoolL,
    TimesBoolR,
    LtBoolL,
    LtBoolR,
    IfError,
    IfTError,
    IfFError,
    PlusErrorL,
    PlusErrorR,
    MinusErrorL,
    MinusErrorR,
    TimesErrorL,
    TimesErrorR,
    LtErrorL,
    LtErrorR,
    UnaryMinusBool,
    LetError1,
    LetError2,
    VarNotFound,
}

/// What an expression evaluates to: a value, or the fault that stopped it.
#[derive(Debug, Clone, Copy, PartialEq, Eq, Structural)]
pub enum EvalResult {
    Value(Value),
    Error(EvalError),
}

/// The fault of a primitive whose left operand is a truth value.
pub open spec fn bool_left(op: BinOp) -> EvalError {
    match op {
        BinOp::Add => EvalError::PlusBoolL,
        BinOp::Sub => EvalError::MinusBoolL,
        BinOp::Mul => EvalError::TimesBoolL,
        BinOp::LessThan => EvalError::LtBoolL,
    }
}

/// The fault of a primitive whose right operand is a truth value.
pub open spec fn bool_right(op: BinOp) -> EvalError {
    match op {
        BinOp::Add => EvalError::PlusBoolR,
        BinOp::Sub => EvalError::MinusBoolR,
        BinOp::Mul => EvalError::TimesBoolR,
        BinOp::LessThan => EvalError::LtBoolR,
    }
}

/// The fault of a primitive whose left operand is itself faulty.
pub open spec fn error_left(op: BinOp) -> EvalError {
    match op {
        BinOp::Add => EvalError::PlusErrorL,
        BinOp::Sub => EvalError::MinusErrorL,
        BinOp::Mul => EvalError::TimesErrorL,
        BinOp::LessThan => EvalError::LtErrorL,
    }
}

/// The fault of a primitive whose right operand is itself faulty.
pub open spec fn error_right(op: BinOp) -> EvalError {
    match op {
        BinOp::Add => EvalError::PlusErrorR,
        BinOp::Sub => EvalError::MinusErrorR,
        BinOp::Mul => EvalError::TimesErrorR,
        BinOp::LessThan => EvalError::LtErrorR,
    }
}

/// The product of two integers, wrapped around at the width of `isize`.
#[verifier::opaque]
pub open spec fn product(l: isize, r: isize) -> isize {
    l.wrapping_mul(r)
}

/// A primitive applied to two integers. Sums, differences and products
/// wrap around at the width of `isize`.
pub open spec fn apply(op: BinOp, l: isize, r: isize) -> Value {
    match op {
        BinOp::Add => Value::Int(l.wrapping_add(r)),
        BinOp::Sub => Value::Int(l.wrapping_sub(r)),
        BinOp::Mul => Value::Int(product(l, r)),
        BinOp::LessThan => Value::Bool(l < r),
    }
}

/// A primitive applied to the results of its two operands. Where the
/// operands are not both integers, one fault is reported, picked in a
/// fixed order: a truth value on the left, a truth value on the right, a
/// fault on the left, a fault on the right.
pub open spec fn combine(op: BinOp, l: EvalResult, r: EvalResult) -> EvalResult {
    if l.is_bool() {
        EvalResult::Error(bool_left(op))
    } else if r.is_bool() {
        EvalResult::Error(bool_right(op))
    } else if l is Error {
        EvalResult::Error(error_left(op))
    } else if r is Error {
        EvalResult::Error(error_right(op))
    } else {
        EvalResult::Value(apply(op, l->Value_0->Int_0, r->Value_0->Int_0))
    }
}

/// Unary minus applied to the result of its operand: an integer is
/// negated (wrapping around at the width of `isize`), a truth value is a
/// fault, and a fault stays what it was.
pub open spec fn negate(r: EvalResult) -> EvalResult {
    match r {
        EvalResult::Value(Value::Int(i)) => EvalResult::Value(Value::Int(0isize.wrapping_sub(i))),
        EvalResult::Value(Value::Bool(_)) => EvalResult::Error(EvalError::UnaryMinusBool),
        EvalResult::Error(e) => EvalResult::Error(e),
    }
}

/// What the most recent binding of `name` is bound to, if `name` is bound.
pub open spec fn lookup(env: Seq<BindingModel>, name: Seq<char>) -> Option<ExprModel>
    decreases env.len(),
{
    if env.len() == 0 {
        None
    } else if env[0].name == name {
        Some(env[0].bound)
    } else {
        lookup(env.drop_first(), name)
    }
}

/// The result of the branch that a conditional selected: a value is the
/// value of the conditional, and a fault of either branch is reported as
/// `IfTError`.
pub open spec fn branch(r: EvalResult) -> EvalResult {
    match r {
        EvalResult::Value(v) => EvalResult::Value(v),
        EvalResult::Error(_) => EvalResult::Error(EvalError::IfTError),
    }
}

/// The result of evaluating `e` in `env`, for an environment whose
/// bindings all hold values.
///
/// A value is its own result. A unary minus negates the result of its
/// operand. A primitive evaluates both operands, whatever they yield, and
/// combines the two results. A conditional evaluates its condition: an
/// integer there is the fault `IfInt`, a fault is passed on as it is, and a
/// truth value selects the branch that alone is evaluated next. A name is
/// looked up from the front of the environment. A `let` evaluates the bound
/// expression, a fault of which is `LetError1`, and then the body with the
/// value bound in front of the environment, a fault of which is
/// `LetError2`.
pub open spec fn eval_model(env: Seq<BindingModel>, e: ExprModel) -> EvalResult
    recommends
        all_values(env),
    decreases e,
{
    match e {
        ExprModel::Value(v) => EvalResult::Value(v),
        ExprModel::Minus(a) => negate(eval_model(env, *a)),
        ExprModel::Prim(op, l, r) => combine(op, eval_model(env, *l), eval_model(env, *r)),
        ExprModel::IfThenElse(c, t, f) => match eval_model(env, *c) {
            EvalResult::Value(Value::Int(_)) => EvalResult::Error(EvalError::IfInt),
            EvalResult::Value(Value::Bool(true)) => branch(eval_model(env, *t)),
            EvalResult::Value(Value::Bool(false)) => branch(eval_model(env, *f)),
            EvalResult::Error(k) => EvalResult::Error(k),
        },
        ExprModel::Ident(name) => match lookup(env, name) {
            Some(bound) => EvalResult::Value(bound->Value_0),
            None => EvalResult::Error(EvalError::VarNotFound),
        },
        ExprModel::Let(name, bound, body) => match eval_model(env, *bound) {
            EvalResult::Value(v) => match eval_model(bind(env, name, v), *body) {
                EvalResult::Value(w) => EvalResult::Value(w),
                EvalResult::Error(_) => EvalResult::Error(EvalError::LetError2),
            },
            EvalResult::Error(_) => EvalResult::Error(EvalError::LetError1),
        },
    }
}

/// The environment with each binding evaluated, the oldest first, in the
/// environment that the older bindings have settled to: every binding
/// then holds the value of what was bound. Where a binding evaluates to a
/// fault, the result is the fault of the oldest such binding.
pub open spec fn settled(env: Seq<BindingModel>) -> Result<Seq<BindingModel>, EvalError>
    decreases env.len(),
{
    if env.len() == 0 {
        Ok(Seq::empty())
    } else {
        match settled(env.drop_first()) {
            Err(k) => Err(k),
            Ok(older) => match eval_model(older, env[0].bound) {
                EvalResult::Value(v) => Ok(bind(older, env[0].name, v)),
                EvalResult::Error(k) => Err(k),
            },
        }
    }
}

impl EvalResult {
    /// Whether the result is a truth value.
    pub open spec fn is_bool(self) -> bool {
        self matches EvalResult::Value(Value::Bool(_))
    }

    /// Whether the result is an integer.
    pub open spec fn is_int(self) -> bool {
        self matches EvalResult::Value(Value::Int(_))
    }

    /// Whether the left operand is less than the right one, under the
    /// order in which the faults of a primitive are picked.
    pub fn less_than(self, rhs: EvalResult) -> (res: EvalResult)
        ensures
            res == combine(BinOp::LessThan, self, rhs),
    {
        match (self, rhs) {
            (EvalResult::Value(Value::Int(l)), EvalResult::Value(Value::Int(r))) => {
                EvalResult::Value(Value::Bool(l < r))
            },
            (EvalResult::Value(Value::Bool(_)), _) => EvalResult::Error(EvalError::LtBoolL),
            (_, EvalResult::Value(Value::Bool(_))) => EvalResult::Error(EvalError::LtBoolR),
            (EvalResult::Error(_), _) => EvalResult::Error(EvalError::LtErrorL),
            (_, EvalResult::Error(_)) => EvalResult::Error(EvalError::LtErrorR),
        }
    }
}

impl AddSpecImpl for EvalResult {
    open spec fn obeys_add_spec() -> bool {
        true
    }

    open spec fn add_req(self, rhs: EvalResult) -> bool {
        true
    }

    open spec fn add_spec(self, rhs: EvalResult) -> EvalResult {
        combine(BinOp::Add, self, rhs)
    }
}

impl Add for EvalResult {
    type Output = EvalResult;

    /// The sum of two results, under the order in which the faults of a
    /// primitive are picked.
    fn add(self, rhs: EvalResult) -> (res: EvalResult)
        ensures
            res == combine(BinOp::Add, self, rhs),
    {
        match (self, rhs) {
            (EvalResult::Value(Value::Int(l)), EvalResult::Value(Value::Int(r))) => {
                EvalResult::Value(Value::Int(l.wrapping_add(r)))
            },
            (EvalResult::Value(Value::Bool(_)), _) => EvalResult::Error(EvalError::PlusBoolL),
            (_, EvalResult::Value(Value::Bool(_))) => EvalResult::Error(EvalError::PlusBoolR),
            (EvalResult::Error(_), _) => EvalResult::Error(EvalError::PlusErrorL),
            (_, EvalResult::Error(_)) => EvalResult::Error(EvalError::PlusErrorR),
        }
    }
}

impl SubSpecImpl for EvalResult {
    open spec fn obeys_sub_spec() -> bool {
        true
    }

    open spec fn sub_req(self, rhs: EvalResult) -> bool {
        true
    }

    open spec fn sub_spec(self, rhs: EvalResult) -> EvalResult {
        combine(BinOp::Sub, self, rhs)
    }
}

impl Sub for EvalResult {
    type Output = EvalResult;

    /// The difference of two results, under the order in which the faults
    /// of a primitive are picked.
    fn sub(self, rhs: EvalResult) -> (res: EvalResult)
        ensures
            res == combine(BinOp::Sub, self, rhs),
    {
        match (self, rhs) {
            (EvalResult::Value(Value::Int(l)), EvalResult::Value(Value::Int(r))) => {
                EvalResult::Value(Value::Int(l.wrapping_sub(r)))
            },
            (EvalResult::Value(Value::Bool(_)), _) => EvalResult::Error(EvalError::MinusBoolL),
            (_, EvalResult::Value(Value::Bool(_))) => EvalResult::Error(EvalError::MinusBoolR),
            (EvalResult::Error(_), _) => EvalResult::Error(EvalError::MinusErrorL),
            (_, EvalResult::Error(_)) => EvalResult::Error(EvalError::MinusErrorR),
        }
    }
}

impl MulSpecImpl for EvalResult {
    open spec fn obeys_mul_spec() -> bool {
        true
    }

    open spec fn mul_req(self, rhs: EvalResult) -> bool {
        true
    }

    open spec fn mul_spec(self, rhs: EvalResult) -> EvalResult {
        combine(BinOp::Mul, self, rhs)
    }
}

impl Mul for EvalResult {
    type Output = EvalResult;

    /// The product of two results, under the order in which the faults of
    /// a primitive are picked.
    fn mul(self, rhs: EvalResult) -> (res: EvalResult)
        ensures
            res == combine(BinOp::Mul, self, rhs),
    {
        reveal(product);
        match (self, rhs) {
            (EvalResult::Value(Value::Int(l)), EvalResult::Value(Value::Int(r))) => {
                EvalResult::Value(Value::Int(l.wrapping_mul(r)))
            },
            (EvalResult::Value(Value::Bool(_)), _) => EvalResult::Error(EvalError::TimesBoolL),
            (_, EvalResult::Value(Value::Bool(_))) => EvalResult::Error(EvalError::TimesBoolR),
            (EvalResult::Error(_), _) => EvalResult::Error(EvalError::TimesErrorL),
            (_, EvalResult::Error(_)) => EvalResult::Error(EvalError::TimesErrorR),
        }
    }
}

impl NegSpecImpl for EvalResult {
    open spec fn obeys_neg_spec() -> bool {
        true
    }

    open spec fn neg_req(self) -> bool {
        true
    }

    open spec fn neg_spec(self) -> EvalResult {
        negate(self)
    }
}

impl Neg for EvalResult {
    type Output = EvalResult;

    /// The negation of a result: a truth value is a fault, and a fault
    /// stays what it was.
    fn neg(self) -> (res: EvalResult)
        ensures
            res == negate(self),
    {
        match self {
            EvalResult::Value(Value::Int(i)) => {
                EvalResult::Value(Value::Int(0isize.wrapping_sub(i)))
            },
            EvalResult::Value(Value::Bool(_)) => EvalResult::Error(EvalError::UnaryMinusBool),
            EvalResult::Error(e) => EvalResult::Error(e),
        }
    }
}

/// Shadowing: a name is bound to what its first binding from the front
/// holds, and is unbound exactly when no binding carries it.
pub proof fn lemma_lookup_first(env: Seq<BindingModel>, name: Seq<char>)
    ensures
        match lookup(env, name) {
            Some(bound) => exists|i: int|
                0 <= i < env.len() && #[trigger] env[i].name == name && env[i].bound == bound
                    && forall|j: int| 0 <= j < i ==> (#[trigger] env[j]).name != name,
            None => forall|i: int| 0 <= i < env.len() ==> (#[trigger] env[i]).name != name,
        },
    decreases env.len(),
{
    if env.len() == 0 {
    } else if env[0].name == name {
        assert(env[0].name == name && env[0].bound == lookup(env, name)->Some_0);
    } else {
        let rest = env.drop_first();
        lemma_lookup_first(rest, name);
        match lookup(rest, name) {
            Some(bound) => {
                let i = choose|i: int|
                    0 <= i < rest.len() && #[trigger] rest[i].name == name && rest[i].bound == bound
                        && forall|j: int| 0 <= j < i ==> (#[trigger] rest[j]).name != name;
                assert(env[i + 1] == rest[i]);
                assert forall|j: int| 0 <= j < i + 1 implies (#[trigger] env[j]).name != name by {
                    if j > 0 {
                        assert(env[j] == rest[j - 1]);
                    }
                }
                assert(env[i + 1].name == name && env[i + 1].bound == bound);
            },
            None => {
                assert forall|i: int| 0 <= i < env.len() implies (#[trigger] env[i]).name
                    != name by {
                    if i > 0 {
                        assert(env[i] == rest[i - 1]);
                    }
                }
            },
        }
    }
}

/// The order in which the faults of a primitive are picked. A truth value
/// on the left is reported whatever the right operand yields; else a truth
/// value on the right, whatever the left operand yields; else a fault on
/// the left; else a fault on the right. Only two integers give a value.
pub proof fn lemma_fault_order(
    env: Seq<BindingModel>,
    op: BinOp,
    l: ExprModel,
    r: ExprModel,
)
    ensures
        ({
            let whole = eval_model(env, ExprModel::Prim(op, Box::new(l), Box::new(r)));
            let left = eval_model(env, l);
            let right = eval_model(env, r);
            &&& left.is_bool() ==> whole == EvalResult::Error(bool_left(op))
            &&& !left.is_bool() && right.is_bool() ==> whole == EvalResult::Error(bool_right(op))
            &&& left is Error && !right.is_bool() ==> whole == EvalResult::Error(error_left(op))
            &&& left.is_int() && right is Error ==> whole == EvalResult::Error(error_right(op))
            &&& left.is_int() && right.is_int() <==> whole is Value
        }),
{
}

/// The binding at the front of the environment shadows all others: a
/// name bound there evaluates to what that binding holds.
pub proof fn lemma_front_binding_wins(env: Seq<BindingModel>, name: Seq<char>)
    requires
        env.len() > 0,
        env[0].name == name,
    ensures
        eval_model(env, ExprModel::Ident(name)) == EvalResult::Value(env[0].bound->Value_0),
{
}

/// Evaluation reports neither `IfError` nor `IfFError`: a fault of the
/// condition is passed on as it is, and a fault of either branch is
/// reported as `IfTError`.
pub proof fn lemma_faults_never_reported(env: Seq<BindingModel>, e: ExprModel)
    ensures
        eval_model(env, e) != EvalResult::Error(EvalError::IfError),
        eval_model(env, e) != EvalResult::Error(EvalError::IfFError),
    decreases e,
{
    match e {
        ExprModel::Minus(a) => {
            lemma_faults_never_reported(env, *a);
        },
        ExprModel::IfThenElse(c, _, _) => {
            lemma_faults_never_reported(env, *c);
        },
        _ => {},
    }
}

/// A settled environment binds the same names in the same order, each
/// to a value.
pub proof fn lemma_settled_shape(env: Seq<BindingModel>)
    ensures
        settled(env) matches Ok(s) ==> {
            &&& all_values(s)
            &&& s.len() == env.len()
            &&& forall|i: int| 0 <= i < env.len() ==> (#[trigger] s[i]).name == env[i].name
        },
    decreases env.len(),
{
    if env.len() > 0 {
        let rest = env.drop_first();
        lemma_settled_shape(rest);
        if let Ok(older) = settled(rest) {
            if let Ok(s) = settled(env) {
                assert forall|i: int| 0 <= i < env.len() implies (#[trigger] s[i]).name
                    == env[i].name && s[i].bound is Value by {
                    if i > 0 {
                        assert(s[i] == older[i - 1]);
                        assert(env[i] == rest[i - 1]);
                    }
                }
            }
        }
    }
}

/// An environment whose bindings all hold values settles to itself.
pub proof fn lemma_values_are_settled(env: Seq<BindingModel>)
    requires
        all_values(env),
    ensures
        settled(env) == Ok::<Seq<BindingModel>, EvalError>(env),
    decreases env.len(),
{
    if env.len() == 0 {
        assert(env =~= Seq::<BindingModel>::empty());
    } else {
        let rest = env.drop_first();
        assert forall|i: int| 0 <= i < rest.len() implies (#[trigger] rest[i]).bound is Value by {
            assert(rest[i] == env[i + 1]);
        }
        lemma_values_are_settled(rest);
        assert(env[0].bound is Value);
        assert(bind(rest, env[0].name, env[0].bound->Value_0) =~= env);
    }
}

/// A fault among the older bindings is the fault of the whole
/// environment.
proof fn lemma_settled_fault(env: Seq<BindingModel>, from: int)
    requires
        0 <= from <= env.len(),
        settled(env.subrange(from, env.len() as int)) is Err,
    ensures
        settled(env) == settled(env.subrange(from, env.len() as int)),
    decreases from,
{
    if from == 0 {
        assert(env.subrange(0, env.len() as int) =~= env);
    } else {
        let longer = env.subrange(from - 1, env.len() as int);
        assert(longer.drop_first() =~= env.subrange(from, env.len() as int));
        lemma_settled_fault(env, from - 1);
    }
}

/// What the most recent binding of `name` in `env` is bound to, if `name`
/// is bound there.
pub fn find<'a>(env: &'a Env, name: &String) -> (res: Option<&'a Expr>)
    ensures
        match res {
            Some(e) => lookup(env@, name@) == Some(e@),
            None => lookup(env@, name@) is None,
        },
{
    let mut i: usize = 0;
    assert(env@.subrange(0, env@.len() as int) =~= env@);
    while i < env.0.len()
        invariant
            i <= env.0@.len(),
            lookup(env@, name@) == lookup(env@.subrange(i as int, env@.len() as int), name@),
        decreases env.0@.len() - i,
    {
        let ghost rest = env@.subrange(i as int, env@.len() as int);
        assert(rest[0] == env@[i as int]);
        assert(rest.drop_first() =~= env@.subrange(i + 1, env@.len() as int));
        if env.0[i].0 == *name {
            return Some(&env.0[i].1);
        }
        i += 1;
    }
    None
}

/// Evaluates `expr` in `env`. Both operands of a primitive are always
/// evaluated; a conditional evaluates its condition and the branch that
/// the condition selects; a `let` evaluates its body with the bound value
/// in front of `env`.
///
/// Evaluation is total: for every expression, in every environment whose
/// bindings all hold values, it ends and returns the one result that
/// `eval_model` gives, a value or a fault.
pub fn eval(env: &Env, expr: &Expr) -> (res: EvalResult)
    requires
        env.well_formed(),
    ensures
        res == eval_model(env@, expr@),
    decreases expr,
{
    match expr {
        Expr::Value(v) => EvalResult::Value(*v),
        Expr::Unary(Unary::Minus(e)) => eval(env, e).neg(),
        Expr::Prim(Prim::Add(l, r)) => eval(env, l).add(eval(env, r)),
        Expr::Prim(Prim::Sub(l, r)) => eval(env, l).sub(eval(env, r)),
        Expr::Prim(Prim::Mul(l, r)) => eval(env, l).mul(eval(env, r)),
        Expr::Prim(Prim::LessThan(l, r)) => eval(env, l).less_than(eval(env, r)),
        Expr::IfThenElse(cond, then, els) => match eval(env, cond) {
            EvalResult::Value(Value::Bool(b)) => {
                let chosen = if b {
                    eval(env, then)
                } else {
                    eval(env, els)
                };
                match chosen {
                    EvalResult::Value(v) => EvalResult::Value(v),
                    EvalResult::Error(_) => EvalResult::Error(EvalError::IfTError),
                }
            },
            EvalResult::Value(Value::Int(_)) => EvalResult::Error(EvalError::IfInt),
            EvalResult::Error(e) => EvalResult::Error(e),
        },
        Expr::Ident(name) => match find(env, name) {
            Some(bound) => {
                proof {
                    lemma_lookup_first(env@, name@);
                    lemma_value_model(*bound);
                }
                match bound {
                    Expr::Value(v) => EvalResult::Value(*v),
                    _ => unreached(),
                }
            },
            None => EvalResult::Error(EvalError::VarNotFound),
        },
        Expr::Let(name, bound, body) => match eval(env, bound) {
            EvalResult::Value(v) => {
                let inner = env.extend(name, v);
                match eval(&inner, body) {
                    EvalResult::Value(w) => EvalResult::Value(w),
                    EvalResult::Error(_) => EvalResult::Error(EvalError::LetError2),
                }
            },
            EvalResult::Error(_) => EvalResult::Error(EvalError::LetError1),
        },
    }
}

/// Evaluates every binding of `env`, the oldest first, each in the
/// environment of the older ones, and returns the environment of the
/// values: one that `eval`, `derive` and `solve` can work in. Where a
/// binding evaluates to a fault, the fault of the oldest such binding is
/// returned. An environment whose bindings all hold values comes back as
/// it is.
pub fn settle(env: &Env) -> (res: Result<Env, EvalError>)
    ensures
        match settled(env@) {
            Ok(s) => res is Ok && res->Ok_0@ == s && res->Ok_0.well_formed(),
            Err(k) => res is Err && res->Err_0 == k,
        },
{
    let mut acc = Env(Vec::new());
    let mut i: usize = env.0.len();
    assert(acc@ =~= Seq::<BindingModel>::empty());
    assert(env@.subrange(i as int, env@.len() as int) =~= Seq::<BindingModel>::empty());
    while i > 0
        invariant
            i <= env.0@.len(),
            env.0@.len() == env@.len(),
            settled(env@.subrange(i as int, env@.len() as int)) == Ok::<
                Seq<BindingModel>,
                EvalError,
            >(acc@),
            acc.well_formed(),
        decreases i,
    {
        i -= 1;
        let ghost suffix = env@.subrange(i as int, env@.len() as int);
        proof {
            assert(suffix[0] == env@[i as int]);
            assert(suffix.drop_first() =~= env@.subrange(i + 1, env@.len() as int));
        }
        match eval(&acc, &env.0[i].1) {
            EvalResult::Value(v) => {
                acc = acc.extend(&env.0[i].0, v);
            },
            EvalResult::Error(k) => {
                proof {
                    lemma_settled_fault(env@, i as int);
                }
                return Err(k);
            },
        }
    }
    assert(env@.subrange(0, env@.len() as int) =~= env@);
    Ok(acc)
}

/// The proof text for a judgement: the derivation of its subject in its
/// environment, or the fault for which the rules define no derivation.
pub fn solve(form: &Form) -> (res: Result<String, EvalError>)
    requires
        form.0.well_formed(),
    ensures
        match derivation(form@.env, form@.subject) {
            Ok(text) => res is Ok && res->Ok_0@ == text,
            Err(k) => res == Err::<String, EvalError>(k),
        },
{
    crate::derivation::derive(&form.0, &form.1)
}

/// The name of the error rule of a fault.
pub open spec fn error_text(e: EvalError) -> Seq<char> {
    match e {
        EvalError::IfInt => "E-IfInt"@,
        EvalError::PlusBoolL => "E-PlusBoolL"@,
        EvalError::PlusBoolR => "E-PlusBoolR"@,
        EvalError::MinusBoolL => "E-MinusBoolL"@,
        EvalError::MinusBoolR => "E-MinusBoolR"@,
        EvalError::TimesBoolL => "E-TimesBoolL"@,
        EvalError::TimesBoolR => "E-TimesBoolR"@,
        EvalError::LtBoolL => "E-LtBoolL"@,
        EvalError::LtBoolR => "E-LtBoolR"@,
        EvalError::IfError => "E-IfError"@,
        EvalError::IfTError => "E-IfTError"@,
        EvalError::IfFError => "E-IfFError"@,
        EvalError::PlusErrorL => "E-PlusErrorL"@,
        EvalError::PlusErrorR => "E-PlusErrorR"@,
        EvalError::MinusErrorL => "E-MinusErrorL"@,
        EvalError::MinusErrorR => "E-MinusErrorR"@,
        EvalError::TimesErrorL => "E-TimesErrorL"@,
        EvalError::TimesErrorR => "E-TimesErrorR"@,
        EvalError::LtErrorL => "E-LtErrorL"@,
        EvalError::LtErrorR => "E-LtErrorR"@,
        EvalError::UnaryMinusBool => "E-UnaryMinusBool"@,
        EvalError::LetError1 => "E-LetError1"@,
        EvalError::LetError2 => "E-LetError2"@,
        EvalError::VarNotFound => "E-VarNotFound"@,
    }
}

/// A result as text: a value as itself, any fault as `error`.
pub open spec fn result_text(r: EvalResult) -> Seq<char> {
    match r {
        EvalResult::Value(v) => value_text(v),
        EvalResult::Error(_) => "error"@,
    }
}

impl EvalError {
    /// The name of the error rule of this fault.
    pub fn rule_name(&self) -> (res: &'static str)
        ensures
            res@ == error_text(*self),
    {
        match self {
            EvalError::IfInt => "E-IfInt",
            EvalError::PlusBoolL => "E-PlusBoolL",
            EvalError::PlusBoolR => "E-PlusBoolR",
            EvalError::MinusBoolL => "E-MinusBoolL",
            EvalError::MinusBoolR => "E-MinusBoolR",
            EvalError::TimesBoolL => "E-TimesBoolL",
            EvalError::TimesBoolR => "E-TimesBoolR",
            EvalError::LtBoolL => "E-LtBoolL",
            EvalError::LtBoolR => "E-LtBoolR",
            EvalError::IfError => "E-IfError",
            EvalError::IfTError => "E-IfTError",
            EvalError::IfFError => "E-IfFError",
            EvalError::PlusErrorL => "E-PlusErrorL",
            EvalError::PlusErrorR => "E-PlusErrorR",
            EvalError::MinusErrorL => "E-MinusErrorL",
            EvalError::MinusErrorR => "E-MinusErrorR",
            EvalError::TimesErrorL => "E-TimesErrorL",
            EvalError::TimesErrorR => "E-TimesErrorR",
            EvalError::LtErrorL => "E-LtErrorL",
            EvalError::LtErrorR => "E-LtErrorR",
            EvalError::UnaryMinusBool => "E-UnaryMinusBool",
            EvalError::LetError1 => "E-LetError1",
            EvalError::LetError2 => "E-LetError2",
            EvalError::VarNotFound => "E-VarNotFound",
        }
    }
}

impl EvalResult {
    /// Appends the result as text to `buf`.
    pub fn write_to(&self, buf: &mut String)
        ensures
            final(buf)@ == old(buf)@ + result_text(*self),
    {
        match self {
            EvalResult::Value(v) => v.write_to(buf),
            EvalResult::Error(_) => buf.append("error"),
        }
    }

    /// The result as text.
    pub fn to_text(&self) -> (res: String)
        ensures
            res@ == result_text(*self),
    {
        let mut buf = String::new();
        self.write_to(&mut buf);
        assert(buf@ =~= result_text(*self));
        buf
    }
}

} // verus!
