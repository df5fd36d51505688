//! The derivation engine: for each node of an expression, the rule that
//! concludes its evaluation, the premises that the rule asks for, and the
//! proof text that writes both down.

use crate::expr::{
    bind, env_text, expr_text, BinOp, BindingModel, Env, Expr, ExprModel, Unary, Value,
};
use crate::solver::{
    bool_left, combine, error_left, error_text, eval, eval_model, find, lookup, result_text,
    EvalError, EvalResult,
};
use std::ops::{Add, Mul, Sub};
use vstd::prelude::*;
use vstd::string::StringExecFns;

verus! {

/// The inference rules that conclude a derivation step. A fault is
/// concluded by the error rule that carries its name.
#[derive(Debug, Clone, Copy, PartialEq, Eq, Structural)]
pub enum Rule {
    EInt,
    EBool,
    EPlus,
    EMinus,
    ETimes,
    ELt,
    EIfT,
    EIfF,
    EVar1,
    EVar2,
    ELet,
    Fault(EvalError),
}

/// The name of a rule.
pub open spec fn rule_text(r: Rule) -> Seq<char> {
    match r {
        Rule::EInt => "E-Int"@,
        Rule::EBool => "E-Bool"@,
        Rule::EPlus => "E-Plus"@,
        Rule::EMinus => "E-Minus"@,
        Rule::ETimes => "E-Times"@,
        Rule::ELt => "E-Lt"@,
        Rule::EIfT => "E-IfT"@,
        Rule::EIfF => "E-IfF"@,
        Rule::EVar1 => "E-Var1"@,
        Rule::EVar2 => "E-Var2"@,
        Rule::ELet => "E-Let"@,
        Rule::Fault(e) => error_text(e),
    }
}

impl Rule {
    /// The name of this rule.
    pub fn name(&self) -> (res: &'static str)
        ensures
            res@ == rule_text(*self),
    {
        match self {
            Rule::EInt => "E-Int",
            Rule::EBool => "E-Bool",
            Rule::EPlus => "E-Plus",
            Rule::EMinus => "E-Minus",
            Rule::ETimes => "E-Times",
            Rule::ELt => "E-Lt",
            Rule::EIfT => "E-IfT",
            Rule::EIfF => "E-IfF",
            Rule::EVar1 => "E-Var1",
            Rule::EVar2 => "E-Var2",
            Rule::ELet => "E-Let",
            Rule::Fault(e) => e.rule_name(),
        }
    }
}

/// The rule that concludes a primitive which evaluates to a value.
pub open spec fn success_rule(op: BinOp) -> Rule {
    match op {
        BinOp::Add => Rule::EPlus,
        BinOp::Sub => Rule::EMinus,
        BinOp::Mul => Rule::ETimes,
        BinOp::LessThan => Rule::ELt,
    }
}

/// Whether the fault of a primitive lies with its left operand.
pub open spec fn blames_left(op: BinOp, k: EvalError) -> bool {
    k == bool_left(op) || k == error_left(op)
}

/// The rule that concludes the evaluation of `e` in `env`, where the
/// rules define one.
///
/// A literal is concluded by `E-Int` or `E-Bool`, and a unary minus by
/// `E-Int` whatever its operand yields. A primitive or a conditional that
/// yields a value is concluded by the rule of its sign, or by `E-IfT` or
/// `E-IfF` after the branch that was selected. One that yields a fault
/// is concluded by the error rule of that very fault: for a conditional
/// `E-IfInt` where the condition is an integer, `E-IfTError` where the
/// selected branch is faulty, and the rule of the fault that the condition
/// passes on where the condition is itself faulty. A
/// bound name is concluded by `E-Var1` where the front binding carries it
/// and by `E-Var2` where another binding is in front. A `let` that yields
/// a value is concluded by `E-Let`.
///
/// The rules define none for an unbound name, and none for a `let` that
/// yields a fault.
pub open spec fn rule_of(env: Seq<BindingModel>, e: ExprModel) -> Option<Rule> {
    match e {
        ExprModel::Value(Value::Int(_)) => Some(Rule::EInt),
        ExprModel::Value(Value::Bool(_)) => Some(Rule::EBool),
        ExprModel::Minus(_) => Some(Rule::EInt),
        ExprModel::Prim(op, _, _) => match eval_model(env, e) {
            EvalResult::Value(_) => Some(success_rule(op)),
            EvalResult::Error(k) => Some(Rule::Fault(k)),
        },
        ExprModel::IfThenElse(c, _, _) => match eval_model(env, *c) {
            EvalResult::Value(Value::Int(_)) => Some(Rule::Fault(EvalError::IfInt)),
            EvalResult::Value(Value::Bool(b)) => match eval_model(env, e) {
                EvalResult::Value(_) => Some(
                    if b {
                        Rule::EIfT
                    } else {
                        Rule::EIfF
                    },
                ),
                EvalResult::Error(k) => Some(Rule::Fault(k)),
            },
            EvalResult::Error(k) => Some(Rule::Fault(k)),
        },
        ExprModel::Ident(name) => if lookup(env, name) is None {
            None
        } else if env[0].name == name {
            Some(Rule::EVar1)
        } else {
            Some(Rule::EVar2)
        },
        ExprModel::Let(_, _, _) => match eval_model(env, e) {
            EvalResult::Value(_) => Some(Rule::ELet),
            EvalResult::Error(_) => None,
        },
    }
}

/// The line that opens a step: the judgement, the rule that concludes it
/// and an opening brace.
pub open spec fn header(env: Seq<BindingModel>, e: ExprModel, r: EvalResult, rule: Rule) -> Seq<
    char,
> {
    env_text(env) + " "@ + expr_text(e) + " evalto "@ + result_text(r) + " by "@ + rule_text(rule)
        + " {\n"@
}

/// The line that closes a step.
pub open spec fn closing() -> Seq<char> {
    "};\n"@
}

/// The word between the operands in the line that states what a
/// primitive makes of two values.
pub open spec fn op_word(op: BinOp) -> Seq<char> {
    match op {
        BinOp::Add => " plus "@,
        BinOp::Sub => " minus "@,
        BinOp::Mul => " times "@,
        BinOp::LessThan => " less than "@,
    }
}

/// The name of the rule that states what a primitive makes of two values.
pub open spec fn build_rule_text(op: BinOp) -> Seq<char> {
    match op {
        BinOp::Add => "B-Plus"@,
        BinOp::Sub => "B-Minus"@,
        BinOp::Mul => "B-Times"@,
        BinOp::LessThan => "B-Lt"@,
    }
}

/// The line that states what a primitive makes of two values. It has no
/// premises.
pub open spec fn build_line(op: BinOp, l: EvalResult, r: EvalResult, v: EvalResult) -> Seq<char> {
    result_text(l) + op_word(op) + result_text(r) + " is "@ + result_text(v) + " by "@
        + build_rule_text(op) + " {}\n"@
}

/// Two pieces of proof text in a row. Where the first has no derivation,
/// the two have none for the same reason; else where the second has none.
pub open spec fn both(
    first: Result<Seq<char>, EvalError>,
    second: Result<Seq<char>, EvalError>,
) -> Result<Seq<char>, EvalError> {
    match (first, second) {
        (Err(k), _) => Err(k),
        (Ok(_), Err(k)) => Err(k),
        (Ok(a), Ok(b)) => Ok(a + b),
    }
}

/// What stands between the braces of the step that derives a primitive,
/// given what its operands evaluate to and the derivations of the two:
/// both derivations and the line that states what the primitive makes of
/// the two values, or the derivation of the operand that the fault lies
/// with.
pub open spec fn operand_premises(
    op: BinOp,
    vl: EvalResult,
    vr: EvalResult,
    dl: Result<Seq<char>, EvalError>,
    dr: Result<Seq<char>, EvalError>,
) -> Result<Seq<char>, EvalError> {
    match combine(op, vl, vr) {
        EvalResult::Value(v) => both(
            both(dl, dr),
            Ok(build_line(op, vl, vr, EvalResult::Value(v))),
        ),
        EvalResult::Error(k) => if blames_left(op, k) {
            dl
        } else {
            dr
        },
    }
}

/// The two things that a step of a derivation is made of.
pub enum Part {
    /// The whole step: the line that opens it, what stands between its
    /// braces, the line that closes it.
    Step,
    /// What stands between the braces: the derivations of the premises.
    Premises,
}

/// The proof text of a part of the step that derives `e` in `env`, or the
/// fault without a rule where the derivation meets one.
///
/// A literal and a unary minus have no premises. A primitive that yields a
/// value has both operands as premises, then the line that states what it
/// makes of their values; one that yields a fault has the operand that
/// the fault lies with. A conditional has its condition and, where that is
/// a truth value, the branch it selects. A name bound at the front of the
/// environment has no premise; any other has itself in the environment
/// without its front binding. A `let` has the bound expression and, with
/// its value bound in front, the body.
pub open spec fn text_of(part: Part, env: Seq<BindingModel>, e: ExprModel) -> Result<
    Seq<char>,
    EvalError,
>
    decreases e, env.len(), (if part is Step {
        1int
    } else {
        0int
    }),
{
    match part {
        Part::Step => match rule_of(env, e) {
            None => Err(eval_model(env, e)->Error_0),
            Some(rule) => match text_of(Part::Premises, env, e) {
                Ok(inner) => Ok(header(env, e, eval_model(env, e), rule) + inner + closing()),
                Err(k) => Err(k),
            },
        },
        Part::Premises => match e {
            ExprModel::Prim(op, l, r) => operand_premises(
                op,
                eval_model(env, *l),
                eval_model(env, *r),
                text_of(Part::Step, env, *l),
                text_of(Part::Step, env, *r),
            ),
            ExprModel::IfThenElse(c, t, f) => match eval_model(env, *c) {
                EvalResult::Value(Value::Bool(true)) => both(
                    text_of(Part::Step, env, *c),
                    text_of(Part::Step, env, *t),
                ),
                EvalResult::Value(Value::Bool(false)) => both(
                    text_of(Part::Step, env, *c),
                    text_of(Part::Step, env, *f),
                ),
                _ => text_of(Part::Step, env, *c),
            },
            ExprModel::Ident(name) => if env.len() > 0 && env[0].name != name {
                text_of(Part::Step, env.drop_first(), e)
            } else {
                Ok(Seq::empty())
            },
            ExprModel::Let(name, bound, body) => both(
                text_of(Part::Step, env, *bound),
                text_of(Part::Step, bind(env, name, eval_model(env, *bound)->Value_0), *body),
            ),
            _ => Ok(Seq::empty()),
        },
    }
}

/// The proof text of the derivation of `e` in `env`: for each step the
/// line that opens it, the derivations of its premises in order, the line
/// that closes it. The result is the fault without a rule where the
/// derivation meets one: an unbound name, or a `let` that evaluates to a
/// fault.
pub open spec fn derivation(env: Seq<BindingModel>, e: ExprModel) -> Result<Seq<char>, EvalError> {
    text_of(Part::Step, env, e)
}

/// What stands between the braces of the step that derives `e` in `env`:
/// the derivations of the premises that its rule asks for, in order.
pub open spec fn premises(env: Seq<BindingModel>, e: ExprModel) -> Result<Seq<char>, EvalError> {
    text_of(Part::Premises, env, e)
}

/// A name bound at the front of the environment is derived by `E-Var1`,
/// whatever stands behind that binding; a name bound only further back is
/// derived by `E-Var2`.
pub proof fn lemma_var_rules(env: Seq<BindingModel>, name: Seq<char>)
    requires
        lookup(env, name) is Some,
    ensures
        env.len() > 0,
        env[0].name == name ==> rule_of(env, ExprModel::Ident(name)) == Some(Rule::EVar1),
        env[0].name != name ==> rule_of(env, ExprModel::Ident(name)) == Some(Rule::EVar2),
{
}

/// The rule in the opening line of a step tells what the step's
/// expression evaluates to. An error rule is the rule of the very fault
/// that evaluation reports, and any other rule concludes only what
/// evaluates to a value, with one exception: `E-Int` also concludes a
/// unary minus, whatever its operand yields. What has no rule evaluates to
/// a fault.
pub proof fn lemma_rule_tells_result(env: Seq<BindingModel>, e: ExprModel)
    ensures
        match rule_of(env, e) {
            Some(Rule::Fault(k)) => eval_model(env, e) == EvalResult::Error(k),
            Some(Rule::EInt) => e is Minus || eval_model(env, e) is Value,
            Some(_) => eval_model(env, e) is Value,
            None => eval_model(env, e) is Error,
        },
{
}

/// The derivation of a literal is one step without premises: the line
/// that opens it, then the line that closes it.
pub proof fn lemma_literal_step(env: Seq<BindingModel>, v: Value)
    ensures
        derivation(env, ExprModel::Value(v)) == Ok::<Seq<char>, EvalError>(
            header(
                env,
                ExprModel::Value(v),
                EvalResult::Value(v),
                if v is Int {
                    Rule::EInt
                } else {
                    Rule::EBool
                },
            ) + closing(),
        ),
{
    reveal_with_fuel(text_of, 2);
    let e = ExprModel::Value(v);
    let head = header(env, e, eval_model(env, e), rule_of(env, e)->Some_0);
    assert(head + Seq::<char>::empty() + closing() =~= head + closing());
}

/// Whatever evaluates to a value has a derivation.
pub proof fn lemma_values_are_derivable(env: Seq<BindingModel>, e: ExprModel)
    requires
        eval_model(env, e) is Value,
    ensures
        derivation(env, e) is Ok,
    decreases e, env.len(),
{
    reveal_with_fuel(text_of, 2);
    match e {
        ExprModel::Prim(_, l, r) => {
            lemma_values_are_derivable(env, *l);
            lemma_values_are_derivable(env, *r);
        },
        ExprModel::IfThenElse(c, t, f) => {
            lemma_values_are_derivable(env, *c);
            match eval_model(env, *c) {
                EvalResult::Value(Value::Bool(true)) => {
                    lemma_values_are_derivable(env, *t);
                },
                EvalResult::Value(Value::Bool(false)) => {
                    lemma_values_are_derivable(env, *f);
                },
                _ => {},
            }
        },
        ExprModel::Ident(name) => {
            if env.len() > 0 && env[0].name != name {
                lemma_values_are_derivable(env.drop_first(), e);
            }
        },
        ExprModel::Let(name, bound, body) => {
            lemma_values_are_derivable(env, *bound);
            lemma_values_are_derivable(bind(env, name, eval_model(env, *bound)->Value_0), *body);
        },
        _ => {},
    }
}

/// Where an expression has no derivation, the reason is a fault without
/// a rule: an unbound name, or a `let` whose bound expression or body
/// evaluates to a fault.
pub proof fn lemma_gaps(env: Seq<BindingModel>, e: ExprModel)
    ensures
        derivation(env, e) matches Err(k) ==> k == EvalError::VarNotFound || k
            == EvalError::LetError1 || k == EvalError::LetError2,
    decreases e, env.len(),
{
    reveal_with_fuel(text_of, 2);
    match e {
        ExprModel::Prim(_, l, r) => {
            lemma_gaps(env, *l);
            lemma_gaps(env, *r);
        },
        ExprModel::IfThenElse(c, t, f) => {
            lemma_gaps(env, *c);
            lemma_gaps(env, *t);
            lemma_gaps(env, *f);
        },
        ExprModel::Ident(name) => {
            if env.len() > 0 && env[0].name != name {
                lemma_gaps(env.drop_first(), e);
            }
        },
        ExprModel::Let(name, bound, body) => {
            lemma_gaps(env, *bound);
            lemma_gaps(bind(env, name, eval_model(env, *bound)->Value_0), *body);
        },
        _ => {},
    }
}

/// The fault that a result carries.
fn fault_of(r: EvalResult) -> (k: EvalError)
    requires
        r is Error,
    ensures
        k == r->Error_0,
{
    match r {
        EvalResult::Error(k) => k,
        EvalResult::Value(_) => unreached(),
    }
}

/// The rule that concludes the evaluation of `expr` in `env`, where the
/// rules define one.
pub fn select_rule(env: &Env, expr: &Expr) -> (res: Option<Rule>)
    requires
        env.well_formed(),
    ensures
        res == rule_of(env@, expr@),
{
    match expr {
        Expr::Value(Value::Int(_)) => Some(Rule::EInt),
        Expr::Value(Value::Bool(_)) => Some(Rule::EBool),
        Expr::Unary(Unary::Minus(_)) => Some(Rule::EInt),
        Expr::Prim(p) => {
            let (op, _, _) = p.parts();
            match eval(env, expr) {
                EvalResult::Value(_) => Some(
                    match op {
                        BinOp::Add => Rule::EPlus,
                        BinOp::Sub => Rule::EMinus,
                        BinOp::Mul => Rule::ETimes,
                        BinOp::LessThan => Rule::ELt,
                    },
                ),
                EvalResult::Error(k) => Some(Rule::Fault(k)),
            }
        },
        Expr::IfThenElse(cond, _, _) => match eval(env, cond) {
            EvalResult::Value(Value::Int(_)) => Some(Rule::Fault(EvalError::IfInt)),
            EvalResult::Value(Value::Bool(b)) => match eval(env, expr) {
                EvalResult::Value(_) => Some(
                    if b {
                        Rule::EIfT
                    } else {
                        Rule::EIfF
                    },
                ),
                EvalResult::Error(k) => Some(Rule::Fault(k)),
            },
            EvalResult::Error(k) => Some(Rule::Fault(k)),
        },
        Expr::Ident(name) => {
            if find(env, name).is_none() {
                None
            } else if env.0[0].0 == *name {
                assert(env@[0].name == name@);
                Some(Rule::EVar1)
            } else {
                assert(env@[0].name != name@);
                Some(Rule::EVar2)
            }
        },
        Expr::Let(_, _, _) => match eval(env, expr) {
            EvalResult::Value(_) => Some(Rule::ELet),
            EvalResult::Error(_) => None,
        },
    }
}

/// Appends to `buf` the line that opens a step.
fn write_header(env: &Env, expr: &Expr, here: EvalResult, rule: Rule, buf: &mut String)
    ensures
        final(buf)@ == old(buf)@ + header(env@, expr@, here, rule),
{
    let left = env.form();
    buf.append(left.as_str());
    buf.append(" ");
    expr.write_to(buf);
    buf.append(" evalto ");
    here.write_to(buf);
    buf.append(" by ");
    buf.append(rule.name());
    buf.append(" {\n");
    assert(buf@ =~= old(buf)@ + header(env@, expr@, here, rule));
}

/// Appends to `buf` the line that states what a primitive makes of two
/// values.
fn write_build_line(op: BinOp, l: EvalResult, r: EvalResult, v: EvalResult, buf: &mut String)
    ensures
        final(buf)@ == old(buf)@ + build_line(op, l, r, v),
{
    l.write_to(buf);
    match op {
        BinOp::Add => buf.append(" plus "),
        BinOp::Sub => buf.append(" minus "),
        BinOp::Mul => buf.append(" times "),
        BinOp::LessThan => buf.append(" less than "),
    }
    r.write_to(buf);
    buf.append(" is ");
    v.write_to(buf);
    buf.append(" by ");
    match op {
        BinOp::Add => buf.append("B-Plus"),
        BinOp::Sub => buf.append("B-Minus"),
        BinOp::Mul => buf.append("B-Times"),
        BinOp::LessThan => buf.append("B-Lt"),
    }
    buf.append(" {}\n");
    assert(buf@ =~= old(buf)@ + build_line(op, l, r, v));
}

/// Whether the fault of a primitive lies with its left operand.
fn lies_left(op: BinOp, k: EvalError) -> (res: bool)
    ensures
        res == blames_left(op, k),
{
    match op {
        BinOp::Add => k == EvalError::PlusBoolL || k == EvalError::PlusErrorL,
        BinOp::Sub => k == EvalError::MinusBoolL || k == EvalError::MinusErrorL,
        BinOp::Mul => k == EvalError::TimesBoolL || k == EvalError::TimesErrorL,
        BinOp::LessThan => k == EvalError::LtBoolL || k == EvalError::LtErrorL,
    }
}

/// Appends the proof text of the derivation of `expr` in `env` to `buf`.
/// Where the derivation meets a fault without a rule, that fault is
/// returned, and what `buf` then holds is of no use.
fn derive_into(env: &Env, expr: &Expr, buf: &mut String) -> (res: Result<(), EvalError>)
    requires
        env.well_formed(),
    ensures
        match derivation(env@, expr@) {
            Ok(text) => res is Ok && final(buf)@ == old(buf)@ + text,
            Err(k) => res == Err::<(), EvalError>(k),
        },
    decreases expr, env@.len(), 3int,
{
    let here = eval(env, expr);
    let rule = match select_rule(env, expr) {
        Some(rule) => rule,
        None => {
            return Err(fault_of(here));
        },
    };
    write_header(env, expr, here, rule, buf);
    derive_premises(env, expr, buf)?;
    buf.append("};\n");
    assert(buf@ =~= old(buf)@ + derivation(env@, expr@)->Ok_0);
    Ok(())
}

/// Appends to `buf` what stands between the braces of the step that
/// derives `expr` in `env`.
fn derive_premises(env: &Env, expr: &Expr, buf: &mut String) -> (res: Result<(), EvalError>)
    requires
        env.well_formed(),
        rule_of(env@, expr@) is Some,
    ensures
        match premises(env@, expr@) {
            Ok(text) => res is Ok && final(buf)@ == old(buf)@ + text,
            Err(k) => res == Err::<(), EvalError>(k),
        },
    decreases expr, env@.len(), 2int,
{
    match expr {
        Expr::Prim(p) => {
            let (op, l, r) = p.parts();
            derive_operands(env, op, l, r, buf, Ghost(*expr))
        },
        Expr::IfThenElse(cond, then, els) => derive_branches(
            env,
            cond,
            then,
            els,
            buf,
            Ghost(*expr),
        ),
        Expr::Ident(name) => derive_binding(env, name, expr, buf),
        Expr::Let(name, bound, body) => derive_let(env, name, bound, body, buf, Ghost(*expr)),
        _ => {
            assert(buf@ =~= old(buf)@ + Seq::<char>::empty());
            Ok(())
        },
    }
}

/// The premises of a primitive: both operands and the line that states
/// what it makes of their values, or the operand that the fault lies with.
fn derive_operands(
    env: &Env,
    op: BinOp,
    l: &Expr,
    r: &Expr,
    buf: &mut String,
    Ghost(whole): Ghost<Expr>,
) -> (res: Result<(), EvalError>)
    requires
        env.well_formed(),
        decreases_to!(whole => *l),
        decreases_to!(whole => *r),
    ensures
        match operand_premises(
            op,
            eval_model(env@, l@),
            eval_model(env@, r@),
            derivation(env@, l@),
            derivation(env@, r@),
        ) {
            Ok(text) => res is Ok && final(buf)@ == old(buf)@ + text,
            Err(k) => res == Err::<(), EvalError>(k),
        },
    decreases whole, env@.len(), 0int,
{
    let vl = eval(env, l);
    let vr = eval(env, r);
    let here = match op {
        BinOp::Add => vl.add(vr),
        BinOp::Sub => vl.sub(vr),
        BinOp::Mul => vl.mul(vr),
        BinOp::LessThan => vl.less_than(vr),
    };
    match here {
        EvalResult::Value(_) => {
            derive_into(env, l, buf)?;
            derive_into(env, r, buf)?;
            write_build_line(op, vl, vr, here, buf);
            assert(buf@ =~= old(buf)@ + (derivation(env@, l@)->Ok_0 + derivation(env@, r@)->Ok_0
                + build_line(op, vl, vr, here)));
            Ok(())
        },
        EvalResult::Error(k) => {
            if lies_left(op, k) {
                derive_into(env, l, buf)
            } else {
                derive_into(env, r, buf)
            }
        },
    }
}

/// The premises of a conditional: its condition and, where that is a
/// truth value, the branch it selects.
fn derive_branches(
    env: &Env,
    cond: &Expr,
    then: &Expr,
    els: &Expr,
    buf: &mut String,
    Ghost(whole): Ghost<Expr>,
) -> (res: Result<(), EvalError>)
    requires
        env.well_formed(),
        whole@ == ExprModel::IfThenElse(Box::new(cond@), Box::new(then@), Box::new(els@)),
        decreases_to!(whole => *cond),
        decreases_to!(whole => *then),
        decreases_to!(whole => *els),
    ensures
        match premises(env@, whole@) {
            Ok(text) => res is Ok && final(buf)@ == old(buf)@ + text,
            Err(k) => res == Err::<(), EvalError>(k),
        },
    decreases whole, env@.len(), 0int,
{
    derive_into(env, cond, buf)?;
    match eval(env, cond) {
        EvalResult::Value(Value::Bool(true)) => {
            derive_into(env, then, buf)?;
            assert(buf@ =~= old(buf)@ + premises(env@, whole@)->Ok_0);
        },
        EvalResult::Value(Value::Bool(false)) => {
            derive_into(env, els, buf)?;
            assert(buf@ =~= old(buf)@ + premises(env@, whole@)->Ok_0);
        },
        _ => {},
    }
    Ok(())
}

/// The premise of a name that is not bound at the front of the
/// environment: the name itself, in the environment without its front
/// binding. A name bound at the front has no premise.
fn derive_binding(env: &Env, name: &String, expr: &Expr, buf: &mut String) -> (res: Result<
    (),
    EvalError,
>)
    requires
        env.well_formed(),
        expr@ == ExprModel::Ident(name@),
        env@.len() > 0,
    ensures
        match premises(env@, expr@) {
            Ok(text) => res is Ok && final(buf)@ == old(buf)@ + text,
            Err(k) => res == Err::<(), EvalError>(k),
        },
    decreases expr, env@.len(), 0int,
{
    if env.0[0].0 != *name {
        let rest = env.tail();
        derive_into(&rest, expr, buf)
    } else {
        assert(buf@ =~= old(buf)@ + Seq::<char>::empty());
        Ok(())
    }
}

/// The premises of a `let` that evaluates to a value: the bound
/// expression and, with its value bound in front, the body.
fn derive_let(
    env: &Env,
    name: &String,
    bound: &Expr,
    body: &Expr,
    buf: &mut String,
    Ghost(whole): Ghost<Expr>,
) -> (res: Result<(), EvalError>)
    requires
        env.well_formed(),
        whole@ == ExprModel::Let(name@, Box::new(bound@), Box::new(body@)),
        eval_model(env@, whole@) is Value,
        decreases_to!(whole => *bound),
        decreases_to!(whole => *body),
    ensures
        match premises(env@, whole@) {
            Ok(text) => res is Ok && final(buf)@ == old(buf)@ + text,
            Err(k) => res == Err::<(), EvalError>(k),
        },
    decreases whole, env@.len(), 0int,
{
    derive_into(env, bound, buf)?;
    match eval(env, bound) {
        EvalResult::Value(v) => {
            let inner = env.extend(name, v);
            derive_into(&inner, body, buf)?;
            assert(buf@ =~= old(buf)@ + premises(env@, whole@)->Ok_0);
            Ok(())
        },
        EvalResult::Error(_) => unreached(),
    }
}

/// The proof text of the derivation of `expr` in `env`, line by line, or
/// the fault for which the rules define no derivation: an unbound name, or
/// a `let` whose bound expression or body evaluates to a fault.
pub fn derive(env: &Env, expr: &Expr) -> (res: Result<String, EvalError>)
    requires
        env.well_formed(),
    ensures
        match derivation(env@, expr@) {
            Ok(text) => res is Ok && res->Ok_0@ == text,
            Err(k) => res == Err::<String, EvalError>(k),
        },
{
    let mut buf = String::new();
    match derive_into(env, expr, &mut buf) {
        Ok(()) => {
            assert(buf@ =~= derivation(env@, expr@)->Ok_0);
            Ok(buf)
        },
        Err(k) => Err(k),
    }
}

} // verus!
