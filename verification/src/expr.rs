//! The abstract syntax: values, expressions, environments and judgements,
//! each with the mathematical model that contracts speak of.

use crate::text::{decimal, write_int};
use vstd::prelude::*;
use vstd::string::StringExecFns;

verus! {

/// A fully evaluated result: an integer or a truth value.
#[derive(Debug, Clone, Copy, PartialEq, Eq, Structural)]
pub enum Value {
    Int(isize),
    Bool(bool),
}

/// The four binary primitives of the language.
#[derive(Debug, Clone, Copy, PartialEq, Eq, Structural)]
pub enum BinOp {
    Add,
    Sub,
    Mul,
    LessThan,
}

/// The model of an expression: the same tree with names as character
/// sequences and the binary primitives told apart by a tag.
pub enum ExprModel {
    Value(Value),
    Minus(Box<ExprModel>),
    Prim(BinOp, Box<ExprModel>, Box<ExprModel>),
    IfThenElse(Box<ExprModel>, Box<ExprModel>, Box<ExprModel>),
    Ident(Seq<char>),
    Let(Seq<char>, Box<ExprModel>, Box<ExprModel>),
}

/// The model of one binding: a name and the model of what it is bound to.
pub struct BindingModel {
    pub name: Seq<char>,
    pub bound: ExprModel,
}

/// The model of a judgement: environment, subject and, where one was
/// written down, the claimed result.
pub struct FormModel {
    pub env: Seq<BindingModel>,
    pub subject: ExprModel,
    pub claimed: Option<ExprModel>,
}

/// Unary operators.
#[derive(Debug, PartialEq, Eq)]
pub enum Unary {
    Minus(Box<Expr>),
}

/// Binary primitives, each with its left and right operand.
#[derive(Debug, PartialEq, Eq)]
pub enum Prim {
    Add(Box<Expr>, Box<Expr>),
    Sub(Box<Expr>, Box<Expr>),
    Mul(Box<Expr>, Box<Expr>),
    LessThan(Box<Expr>, Box<Expr>),
}

/// An expression of the language.
#[derive(Debug, PartialEq, Eq)]
pub enum Expr {
    Value(Value),
    Unary(Unary),
    Prim(Prim),
    IfThenElse(Box<Expr>, Box<Expr>, Box<Expr>),
    Ident(String),
    Let(String, Box<Expr>, Box<Expr>),
}

/// A single binding: a name and the expression bound to it. Inside an
/// environment that evaluation reads, the expression is a `Expr::Value`.
#[derive(Debug, PartialEq, Eq)]
pub struct EnvVar(pub String, pub Expr);

/// An environment: a stack of bindings, the most recent one at index 0.
/// A name may occur more than once; the occurrence nearest the front
/// shadows the others.
#[derive(Debug, PartialEq, Eq)]
pub struct Env(pub Vec<EnvVar>);

/// A judgement: an environment, the expression to evaluate in it and,
/// where the judgement was written with one, the result it claims.
#[derive(Debug, PartialEq, Eq)]
pub struct Form(pub Env, pub Expr, pub Option<Expr>);

impl Expr {
    /// The model of the expression, node by node.
    pub open spec fn model(&self) -> ExprModel
        decreases self,
    {
        match self {
            Expr::Value(v) => ExprModel::Value(*v),
            Expr::Unary(Unary::Minus(e)) => ExprModel::Minus(Box::new(e.model())),
            Expr::Prim(p) => ExprModel::Prim(
                p.tag(),
                Box::new(p.left().model()),
                Box::new(p.right().model()),
            ),
            Expr::IfThenElse(c, t, e) => ExprModel::IfThenElse(
                Box::new(c.model()),
                Box::new(t.model()),
                Box::new(e.model()),
            ),
            Expr::Ident(name) => ExprModel::Ident(name@),
            Expr::Let(name, bound, body) => ExprModel::Let(
                name@,
                Box::new(bound.model()),
                Box::new(body.model()),
            ),
        }
    }
}

impl Unary {
    /// The model of the operator applied to the model of its operand.
    pub open spec fn model(&self) -> ExprModel {
        match self {
            Unary::Minus(e) => ExprModel::Minus(Box::new(e.model())),
        }
    }
}

impl Prim {
    /// The primitive's tag with the models of its two operands.
    pub open spec fn model(&self) -> ExprModel {
        ExprModel::Prim(self.tag(), Box::new(self.left().model()), Box::new(self.right().model()))
    }
}

impl View for Unary {
    type V = ExprModel;

    open spec fn view(&self) -> ExprModel {
        self.model()
    }
}

impl View for Prim {
    type V = ExprModel;

    open spec fn view(&self) -> ExprModel {
        self.model()
    }
}

impl View for Expr {
    type V = ExprModel;

    open spec fn view(&self) -> ExprModel {
        self.model()
    }
}

impl View for EnvVar {
    type V = BindingModel;

    open spec fn view(&self) -> BindingModel {
        BindingModel { name: self.0@, bound: self.1@ }
    }
}

impl View for Env {
    type V = Seq<BindingModel>;

    open spec fn view(&self) -> Seq<BindingModel> {
        Seq::new(self.0@.len(), |i: int| self.0@[i]@)
    }
}

impl View for Form {
    type V = FormModel;

    open spec fn view(&self) -> FormModel {
        FormModel {
            env: self.0@,
            subject: self.1@,
            claimed: match self.2 {
                Some(e) => Some(e@),
                None => None,
            },
        }
    }
}

/// Every binding of the environment holds a value.
pub open spec fn all_values(env: Seq<BindingModel>) -> bool {
    forall|i: int| 0 <= i < env.len() ==> (#[trigger] env[i]).bound is Value
}

/// The environment with one more binding, of `name` to the value `v`, in
/// front of all the others.
pub open spec fn bind(env: Seq<BindingModel>, name: Seq<char>, v: Value) -> Seq<BindingModel> {
    seq![BindingModel { name, bound: ExprModel::Value(v) }] + env
}

/// A value as text: an integer in decimal, a truth value as `true` or
/// `false`.
pub open spec fn value_text(v: Value) -> Seq<char> {
    match v {
        Value::Int(i) => decimal(i as int),
        Value::Bool(true) => "true"@,
        Value::Bool(false) => "false"@,
    }
}

/// The sign of a binary primitive, with a blank on either side.
pub open spec fn op_text(op: BinOp) -> Seq<char> {
    match op {
        BinOp::Add => " + "@,
        BinOp::Sub => " - "@,
        BinOp::Mul => " * "@,
        BinOp::LessThan => " < "@,
    }
}

/// An expression as text, in the notation it is written in. Operands are
/// written one after the other, with no parentheses added.
pub open spec fn expr_text(e: ExprModel) -> Seq<char>
    decreases e,
{
    match e {
        ExprModel::Value(v) => value_text(v),
        ExprModel::Minus(a) => "-"@ + expr_text(*a),
        ExprModel::Prim(op, l, r) => expr_text(*l) + op_text(op) + expr_text(*r),
        ExprModel::IfThenElse(c, t, f) => "if "@ + expr_text(*c) + " then "@ + expr_text(*t)
            + " else "@ + expr_text(*f),
        ExprModel::Ident(name) => name,
        ExprModel::Let(name, bound, body) => "let "@ + name + " = "@ + expr_text(*bound) + " in "@
            + expr_text(*body),
    }
}

/// A binding as text: the name, an equals sign, what it is bound to.
pub open spec fn binding_text(b: BindingModel) -> Seq<char> {
    b.name + " = "@ + expr_text(b.bound)
}

/// The bindings of an environment as text, the oldest first, with a comma
/// between two of them and none at the end.
pub open spec fn bindings_text(env: Seq<BindingModel>) -> Seq<char>
    decreases env.len(),
{
    if env.len() == 0 {
        Seq::empty()
    } else if env.len() == 1 {
        binding_text(env[0])
    } else {
        bindings_text(env.drop_first()) + ", "@ + binding_text(env[0])
    }
}

/// The left side of a judgement: the bindings, then a turnstile.
pub open spec fn env_text(env: Seq<BindingModel>) -> Seq<char> {
    bindings_text(env) + " |-"@
}

/// The index of the oldest binding of `name`, if `name` is bound: the
/// greatest index whose binding carries it.
pub open spec fn oldest_binding(env: Seq<BindingModel>, name: Seq<char>) -> Option<int>
    decreases env.len(),
{
    if env.len() == 0 {
        None
    } else if env.last().name == name {
        Some(env.len() - 1)
    } else {
        oldest_binding(env.drop_last(), name)
    }
}

/// The left side of a judgement cut off behind the oldest binding of
/// `name`: the bindings from the oldest one up to that binding, then a
/// turnstile. Where `name` is not bound, nothing is cut off.
pub open spec fn env_text_while(env: Seq<BindingModel>, name: Seq<char>) -> Seq<char> {
    match oldest_binding(env, name) {
        Some(k) => env_text(env.subrange(k, env.len() as int)),
        None => env_text(env),
    }
}

/// The text that stands written once the bindings from index `from` on
/// are out, the oldest first: each is followed by a comma but the most
/// recent of the whole environment.
pub open spec fn written(env: Seq<BindingModel>, from: int) -> Seq<char> {
    if from >= env.len() {
        Seq::empty()
    } else if from == 0 {
        bindings_text(env)
    } else {
        bindings_text(env.subrange(from, env.len() as int)) + ", "@
    }
}

/// The oldest binding of a name is the one behind which no binding
/// carries that name; a name is unbound exactly when no binding carries it.
pub proof fn lemma_oldest_binding(env: Seq<BindingModel>, name: Seq<char>)
    ensures
        match oldest_binding(env, name) {
            Some(k) => 0 <= k < env.len() && env[k].name == name && forall|j: int|
                k < j < env.len() ==> (#[trigger] env[j]).name != name,
            None => forall|j: int| 0 <= j < env.len() ==> (#[trigger] env[j]).name != name,
        },
    decreases env.len(),
{
    if env.len() > 0 && env.last().name != name {
        let front = env.drop_last();
        lemma_oldest_binding(front, name);
        match oldest_binding(front, name) {
            Some(k) => {
                assert(front[k] == env[k]);
                assert forall|j: int| k < j < env.len() implies (#[trigger] env[j]).name
                    != name by {
                    if j < front.len() {
                        assert(front[j] == env[j]);
                    }
                }
            },
            None => {
                assert forall|j: int| 0 <= j < env.len() implies (#[trigger] env[j]).name
                    != name by {
                    if j < front.len() {
                        assert(front[j] == env[j]);
                    }
                }
            },
        }
    }
}

/// An expression is a value exactly when its model is one.
pub proof fn lemma_value_model(e: Expr)
    ensures
        e@ is Value <==> e is Value,
        e matches Expr::Value(v) ==> e@ == ExprModel::Value(v),
{
}

impl Clone for Expr {
    fn clone(&self) -> (res: Self)
        ensures
            res == *self,
        decreases self,
    {
        match self {
            Expr::Value(v) => Expr::Value(*v),
            Expr::Unary(Unary::Minus(e)) => Expr::Unary(Unary::Minus(Box::new((&**e).clone()))),
            Expr::Prim(Prim::Add(l, r)) => Expr::Prim(
                Prim::Add(Box::new((&**l).clone()), Box::new((&**r).clone())),
            ),
            Expr::Prim(Prim::Sub(l, r)) => Expr::Prim(
                Prim::Sub(Box::new((&**l).clone()), Box::new((&**r).clone())),
            ),
            Expr::Prim(Prim::Mul(l, r)) => Expr::Prim(
                Prim::Mul(Box::new((&**l).clone()), Box::new((&**r).clone())),
            ),
            Expr::Prim(Prim::LessThan(l, r)) => Expr::Prim(
                Prim::LessThan(Box::new((&**l).clone()), Box::new((&**r).clone())),
            ),
            Expr::IfThenElse(c, t, e) => Expr::IfThenElse(
                Box::new((&**c).clone()),
                Box::new((&**t).clone()),
                Box::new((&**e).clone()),
            ),
            Expr::Ident(name) => Expr::Ident(name.clone()),
            Expr::Let(name, bound, body) => Expr::Let(
                name.clone(),
                Box::new((&**bound).clone()),
                Box::new((&**body).clone()),
            ),
        }
    }
}

impl Clone for Unary {
    fn clone(&self) -> (res: Self)
        ensures
            res == *self,
    {
        match self {
            Unary::Minus(e) => Unary::Minus(Box::new((&**e).clone())),
        }
    }
}

impl Clone for Prim {
    fn clone(&self) -> (res: Self)
        ensures
            res == *self,
    {
        match self {
            Prim::Add(l, r) => Prim::Add(Box::new((&**l).clone()), Box::new((&**r).clone())),
            Prim::Sub(l, r) => Prim::Sub(Box::new((&**l).clone()), Box::new((&**r).clone())),
            Prim::Mul(l, r) => Prim::Mul(Box::new((&**l).clone()), Box::new((&**r).clone())),
            Prim::LessThan(l, r) => Prim::LessThan(
                Box::new((&**l).clone()),
                Box::new((&**r).clone()),
            ),
        }
    }
}

impl BinOp {
    /// The sign of the primitive, with a blank on either side.
    pub fn sign(&self) -> (res: &'static str)
        ensures
            res@ == op_text(*self),
    {
        match self {
            BinOp::Add => " + ",
            BinOp::Sub => " - ",
            BinOp::Mul => " * ",
            BinOp::LessThan => " < ",
        }
    }
}

impl Value {
    /// Appends the value as text to `buf`.
    pub fn write_to(&self, buf: &mut String)
        ensures
            final(buf)@ == old(buf)@ + value_text(*self),
    {
        match self {
            Value::Int(i) => write_int(buf, *i),
            Value::Bool(true) => buf.append("true"),
            Value::Bool(false) => buf.append("false"),
        }
    }

    /// The value as text.
    pub fn to_text(&self) -> (res: String)
        ensures
            res@ == value_text(*self),
    {
        let mut buf = String::new();
        self.write_to(&mut buf);
        assert(buf@ =~= value_text(*self));
        buf
    }
}

impl Expr {
    /// Appends the expression as text to `buf`.
    pub fn write_to(&self, buf: &mut String)
        ensures
            final(buf)@ == old(buf)@ + expr_text(self@),
        decreases self,
    {
        match self {
            Expr::Value(v) => v.write_to(buf),
            Expr::Unary(u) => u.write_to(buf),
            Expr::Prim(p) => p.write_to(buf),
            Expr::IfThenElse(c, t, e) => {
                buf.append("if ");
                c.write_to(buf);
                buf.append(" then ");
                t.write_to(buf);
                buf.append(" else ");
                e.write_to(buf);
                assert(buf@ =~= old(buf)@ + expr_text(self@));
            },
            Expr::Ident(name) => buf.append(name.as_str()),
            Expr::Let(name, bound, body) => {
                buf.append("let ");
                buf.append(name.as_str());
                buf.append(" = ");
                bound.write_to(buf);
                buf.append(" in ");
                body.write_to(buf);
                assert(buf@ =~= old(buf)@ + expr_text(self@));
            },
        }
    }

    /// The expression as text.
    pub fn to_text(&self) -> (res: String)
        ensures
            res@ == expr_text(self@),
    {
        let mut buf = String::new();
        self.write_to(&mut buf);
        assert(buf@ =~= expr_text(self@));
        buf
    }
}

impl Unary {
    /// Appends the operator and its operand as text to `buf`.
    pub fn write_to(&self, buf: &mut String)
        ensures
            final(buf)@ == old(buf)@ + expr_text(self@),
        decreases self,
    {
        match self {
            Unary::Minus(e) => {
                buf.append("-");
                e.write_to(buf);
                assert(buf@ =~= old(buf)@ + expr_text(self@));
            },
        }
    }

    /// The operator and its operand as text.
    pub fn to_text(&self) -> (res: String)
        ensures
            res@ == expr_text(self@),
    {
        let mut buf = String::new();
        self.write_to(&mut buf);
        assert(buf@ =~= expr_text(self@));
        buf
    }
}

impl Prim {
    /// Appends the primitive as text to `buf`: the left operand, the sign,
    /// the right operand.
    pub fn write_to(&self, buf: &mut String)
        ensures
            final(buf)@ == old(buf)@ + expr_text(self@),
        decreases self,
    {
        let (op, l, r) = self.parts();
        l.write_to(buf);
        buf.append(op.sign());
        r.write_to(buf);
        assert(buf@ =~= old(buf)@ + expr_text(self@));
    }

    /// The primitive as text.
    pub fn to_text(&self) -> (res: String)
        ensures
            res@ == expr_text(self@),
    {
        let mut buf = String::new();
        self.write_to(&mut buf);
        assert(buf@ =~= expr_text(self@));
        buf
    }

    /// The primitive's tag.
    pub open spec fn tag(&self) -> BinOp {
        match self {
            Prim::Add(_, _) => BinOp::Add,
            Prim::Sub(_, _) => BinOp::Sub,
            Prim::Mul(_, _) => BinOp::Mul,
            Prim::LessThan(_, _) => BinOp::LessThan,
        }
    }

    /// The primitive's left operand.
    pub open spec fn left(&self) -> Expr {
        match self {
            Prim::Add(l, _) => **l,
            Prim::Sub(l, _) => **l,
            Prim::Mul(l, _) => **l,
            Prim::LessThan(l, _) => **l,
        }
    }

    /// The primitive's right operand.
    pub open spec fn right(&self) -> Expr {
        match self {
            Prim::Add(_, r) => **r,
            Prim::Sub(_, r) => **r,
            Prim::Mul(_, r) => **r,
            Prim::LessThan(_, r) => **r,
        }
    }

    /// The primitive taken apart: its tag, its left and its right operand.
    pub fn parts(&self) -> (res: (BinOp, &Expr, &Expr))
        ensures
            res.0 == self.tag(),
            *res.1 == self.left(),
            *res.2 == self.right(),
            decreases_to!(*self => *res.1),
            decreases_to!(*self => *res.2),
    {
        match self {
            Prim::Add(l, r) => (BinOp::Add, l, r),
            Prim::Sub(l, r) => (BinOp::Sub, l, r),
            Prim::Mul(l, r) => (BinOp::Mul, l, r),
            Prim::LessThan(l, r) => (BinOp::LessThan, l, r),
        }
    }
}

impl Clone for EnvVar {
    fn clone(&self) -> (res: Self)
        ensures
            res == *self,
    {
        EnvVar(self.0.clone(), self.1.clone())
    }
}

impl Clone for Env {
    fn clone(&self) -> (res: Self)
        ensures
            res@ == self@,
    {
        let mut items: Vec<EnvVar> = Vec::new();
        let mut i: usize = 0;
        while i < self.0.len()
            invariant
                i <= self.0@.len(),
                items@.len() == i,
                forall|j: int| 0 <= j < i ==> items@[j] == self.0@[j],
            decreases self.0@.len() - i,
        {
            items.push(self.0[i].clone());
            i += 1;
        }
        let res = Env(items);
        assert(res@ =~= self@);
        res
    }
}

impl Env {
    /// Every binding holds a value: the condition under which the
    /// environment can be evaluated in.
    pub open spec fn well_formed(&self) -> bool {
        all_values(self@)
    }

    /// Whether every binding holds a value.
    pub fn is_well_formed(&self) -> (ok: bool)
        ensures
            ok == self.well_formed(),
    {
        let mut i: usize = 0;
        while i < self.0.len()
            invariant
                i <= self.0@.len(),
                forall|j: int| 0 <= j < i ==> (#[trigger] self@[j]).bound is Value,
            decreases self.0@.len() - i,
        {
            match &self.0[i].1 {
                Expr::Value(_) => {},
                _ => {
                    proof {
                        lemma_value_model(self.0@[i as int].1);
                    }
                    assert(!(self@[i as int].bound is Value));
                    return false;
                },
            }
            i += 1;
        }
        true
    }

    /// Appends the binding at index `i` to `buf`, then a comma unless the
    /// binding is the most recent one.
    fn write_binding(&self, i: usize, buf: &mut String)
        requires
            i < self@.len(),
            old(buf)@ == written(self@, i + 1),
        ensures
            final(buf)@ == bindings_text(self@.subrange(i as int, self@.len() as int)),
    {
        let ghost rest = self@.subrange(i as int, self@.len() as int);
        assert(rest[0] == self@[i as int]);
        assert(rest.drop_first() =~= self@.subrange(i + 1, self@.len() as int));
        buf.append(self.0[i].0.as_str());
        buf.append(" = ");
        self.0[i].1.write_to(buf);
        assert(buf@ =~= old(buf)@ + binding_text(self@[i as int]));
        proof {
            if i + 1 == self@.len() {
                assert(buf@ =~= binding_text(self@[i as int]));
            }
        }
    }

    /// The left side of a judgement in this environment: the bindings,
    /// the oldest first, with a comma between two of them, then a
    /// turnstile.
    pub fn form(&self) -> (res: String)
        ensures
            res@ == env_text(self@),
    {
        let mut buf = String::new();
        let mut i: usize = self.0.len();
        while i > 0
            invariant
                i <= self@.len(),
                buf@ == written(self@, i as int),
            decreases i,
        {
            i -= 1;
            self.write_binding(i, &mut buf);
            if i != 0 {
                buf.append(", ");
            } else {
                assert(self@.subrange(0, self@.len() as int) =~= self@);
            }
        }
        buf.append(" |-");
        buf
    }

    /// The left side of a judgement in this environment, cut off behind
    /// the oldest binding of `name`: the bindings from the oldest one up
    /// to and with that binding, then a turnstile. Where `name` is not
    /// bound, this is `form`.
    pub fn form_while(&self, name: &String) -> (res: String)
        ensures
            res@ == env_text_while(self@, name@),
    {
        let mut buf = String::new();
        let mut i: usize = self.0.len();
        proof {
            lemma_oldest_binding(self@, name@);
        }
        while i > 0
            invariant
                i <= self@.len(),
                buf@ == written(self@, i as int),
                forall|j: int| i <= j < self@.len() ==> (#[trigger] self@[j]).name != name@,
            decreases i,
        {
            i -= 1;
            self.write_binding(i, &mut buf);
            if self.0[i].0 == *name {
                proof {
                    lemma_oldest_binding(self@, name@);
                    assert(self@[i as int].name == name@);
                }
                buf.append(" |-");
                return buf;
            }
            if i != 0 {
                buf.append(", ");
            } else {
                assert(self@.subrange(0, self@.len() as int) =~= self@);
            }
        }
        buf.append(" |-");
        buf
    }

    /// A new environment with `name` bound to `v` in front of the bindings
    /// of this one, which is left as it was.
    pub fn extend(&self, name: &String, v: Value) -> (res: Env)
        ensures
            res@ == bind(self@, name@, v),
    {
        let mut items: Vec<EnvVar> = Vec::new();
        items.push(EnvVar(name.clone(), Expr::Value(v)));
        let mut i: usize = 0;
        while i < self.0.len()
            invariant
                i <= self.0@.len(),
                items@.len() == i + 1,
                items@[0]@ == (BindingModel { name: name@, bound: ExprModel::Value(v) }),
                forall|j: int| 0 <= j < i ==> items@[j + 1] == self.0@[j],
            decreases self.0@.len() - i,
        {
            items.push(self.0[i].clone());
            i += 1;
        }
        let res = Env(items);
        assert(res@ =~= bind(self@, name@, v));
        res
    }

    /// A new environment without the most recent binding of this one.
    pub fn tail(&self) -> (res: Env)
        requires
            self@.len() > 0,
        ensures
            res@ == self@.drop_first(),
    {
        let mut items: Vec<EnvVar> = Vec::new();
        let mut i: usize = 1;
        while i < self.0.len()
            invariant
                1 <= i <= self.0@.len(),
                items@.len() == i - 1,
                forall|j: int| 0 <= j < i - 1 ==> items@[j] == self.0@[j + 1],
            decreases self.0@.len() - i,
        {
            items.push(self.0[i].clone());
            i += 1;
        }
        let res = Env(items);
        assert(res@ =~= self@.drop_first());
        res
    }
}

} // verus!
