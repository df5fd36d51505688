//! The parser: a sequence of tokens to a judgement, by recursive descent
//! over the precedence tiers of the grammar.
//!
//! ```text
//! form    := env expr
//! env     := (name '=' expr (',' name '=' expr)*)?
//! expr    := compare
//! compare := arith ('<' compare)?
//! arith   := term (('+' | '-') arith)?
//! term    := unary ('*' term)?
//! unary   := '-' atom | atom
//! atom    := int | bool | name | '(' expr ')'
//!          | 'if' expr 'then' expr 'else' expr
//!          | 'let' name '=' expr 'in' expr
//! ```

use crate::expr::{
    BinOp, BindingModel, Env, EnvVar, Expr, ExprModel, Form, FormModel, Prim, Unary, Value,
};
use crate::tokenizer::{token_models, token_text, Operator, Sym, Token, TokenModel};
use vstd::prelude::*;
use vstd::string::StringExecFns;

verus! {

/// What the grammar asks for at a place.
#[derive(Debug, Clone, Copy, PartialEq, Eq, Structural)]
pub enum Expected {
    /// The start of an expression: a literal, a name, `-`, `(`, `if` or
    /// `let`.
    Expression,
    /// A closing parenthesis.
    RParen,
    /// The keyword `then`.
    Then,
    /// The keyword `else`.
    Else,
    /// The keyword `in`.
    In,
    /// A name.
    Name,
    /// An equals sign.
    Equal,
    /// The end of the tokens.
    End,
}

/// A place where the tokens do not fit the grammar: what the grammar asks
/// for there, and the token found instead, or none at the end of the
/// tokens.
#[derive(Debug, PartialEq, Eq)]
pub struct SyntaxError {
    pub expected: Expected,
    pub found: Option<Token>,
}

/// The model of a syntax error.
pub struct SyntaxErrorModel {
    pub expected: Expected,
    pub found: Option<TokenModel>,
}

impl View for SyntaxError {
    type V = SyntaxErrorModel;

    open spec fn view(&self) -> SyntaxErrorModel {
        SyntaxErrorModel {
            expected: self.expected,
            found: match self.found {
                Some(t) => Some(t@),
                None => None,
            },
        }
    }
}

/// What the grammar asks for, in words.
pub open spec fn expected_text(e: Expected) -> Seq<char> {
    match e {
        Expected::Expression => "an expression"@,
        Expected::RParen => "')'"@,
        Expected::Then => "'then'"@,
        Expected::Else => "'else'"@,
        Expected::In => "'in'"@,
        Expected::Name => "a name"@,
        Expected::Equal => "'='"@,
        Expected::End => "the end of the input"@,
    }
}

/// What was found, in words: the token between quotes, or the end of the
/// input.
pub open spec fn found_text(found: Option<TokenModel>) -> Seq<char> {
    match found {
        Some(t) => "'"@ + token_text(t) + "'"@,
        None => "the end of the input"@,
    }
}

/// What a syntax error says: what the grammar asks for, and what was
/// found.
pub open spec fn syntax_error_text(e: SyntaxErrorModel) -> Seq<char> {
    "expected "@ + expected_text(e.expected) + ", found "@ + found_text(e.found)
}

impl Clone for SyntaxError {
    fn clone(&self) -> (res: Self)
        ensures
            res == *self,
    {
        SyntaxError {
            expected: self.expected,
            found: match &self.found {
                Some(t) => Some(t.clone()),
                None => None,
            },
        }
    }
}

impl Expected {
    /// What the grammar asks for, in words.
    pub fn text(&self) -> (res: &'static str)
        ensures
            res@ == expected_text(*self),
    {
        match self {
            Expected::Expression => "an expression",
            Expected::RParen => "')'",
            Expected::Then => "'then'",
            Expected::Else => "'else'",
            Expected::In => "'in'",
            Expected::Name => "a name",
            Expected::Equal => "'='",
            Expected::End => "the end of the input",
        }
    }
}

impl SyntaxError {
    /// What the error says, for a reader.
    pub fn message(&self) -> (res: String)
        ensures
            res@ == syntax_error_text(self@),
    {
        let mut buf = String::new();
        buf.append("expected ");
        buf.append(self.expected.text());
        buf.append(", found ");
        match &self.found {
            Some(t) => {
                let ghost before = buf@;
                buf.append("'");
                t.write_to(&mut buf);
                buf.append("'");
                assert(buf@ =~= before + found_text(self@.found));
            },
            None => {
                buf.append("the end of the input");
            },
        }
        assert(buf@ =~= syntax_error_text(self@));
        buf
    }
}

/// What parsing an expression gives: its model and the number of tokens
/// that it spans, or the first place where the tokens do not fit.
pub type Parsed = Result<(ExprModel, nat), SyntaxErrorModel>;

/// The error at position `at`, where the grammar asks for `expected`.
pub open spec fn mismatch(ts: Seq<TokenModel>, at: int, expected: Expected) -> SyntaxErrorModel {
    SyntaxErrorModel {
        expected,
        found: if 0 <= at < ts.len() {
            Some(ts[at])
        } else {
            None
        },
    }
}

/// Whether the token at position `at` is `t`.
pub open spec fn token_is(ts: Seq<TokenModel>, at: int, t: TokenModel) -> bool {
    0 <= at < ts.len() && ts[at] == t
}

/// The rules of the grammar that stand for an expression or a part of
/// one, from the loosest to the tightest.
pub enum Tier {
    /// `compare := arith ('<' compare)?`
    Compare,
    /// `arith := term (('+' | '-') arith)?`
    Arith,
    /// `term := unary ('*' term)?`
    Term,
    /// `unary := '-' atom | atom`
    Unary,
    /// `atom := int | bool | name | '(' expr ')' | 'if' .. | 'let' ..`
    Atom,
    /// `'(' expr ')'`
    Paren,
    /// `'if' expr 'then' expr 'else' expr`
    If,
    /// `'let' name '=' expr 'in' expr`
    Let,
}

/// How far a rule stands from the tightest ones: a rule only calls, at
/// the position it starts at, rules that stand nearer.
pub open spec fn rank(tier: Tier) -> int {
    match tier {
        Tier::Compare => 5,
        Tier::Arith => 4,
        Tier::Term => 3,
        Tier::Unary => 2,
        Tier::Atom => 1,
        Tier::Paren => 0,
        Tier::If => 0,
        Tier::Let => 0,
    }
}

/// The binary primitive that an operator sign of the given tier stands
/// for at position `at`, if one stands there.
pub open spec fn infix_at(tier: Tier, ts: Seq<TokenModel>, at: int) -> Option<BinOp> {
    if !(0 <= at < ts.len()) {
        None
    } else {
        match (tier, ts[at]) {
            (Tier::Compare, TokenModel::Op(Operator::LessThan)) => Some(BinOp::LessThan),
            (Tier::Arith, TokenModel::Op(Operator::Plus)) => Some(BinOp::Add),
            (Tier::Arith, TokenModel::Op(Operator::Minus)) => Some(BinOp::Sub),
            (Tier::Term, TokenModel::Op(Operator::Mul)) => Some(BinOp::Mul),
            _ => None,
        }
    }
}

/// The rule that gives the left operand of a binary tier.
pub open spec fn tighter(tier: Tier) -> Tier {
    match tier {
        Tier::Compare => Tier::Arith,
        Tier::Arith => Tier::Term,
        _ => Tier::Unary,
    }
}

/// What the rule `tier` gives at position `pos`: the expression that
/// starts there and the number of tokens that it spans, or the first place
/// where the tokens do not fit.
///
/// A binary tier reads its left operand by the next tighter rule and,
/// where one of its own operator signs follows, its right operand by
/// itself: operators of one tier group to the right. `Paren`, `If` and
/// `Let` are asked only where their first token stands at `pos`.
pub open spec fn parse_at(tier: Tier, ts: Seq<TokenModel>, pos: int) -> Parsed
    decreases ts.len() - pos, rank(tier),
{
    match tier {
        Tier::Compare | Tier::Arith | Tier::Term => match parse_at(tighter(tier), ts, pos) {
            Err(e) => Err(e),
            Ok((left, n)) => match infix_at(tier, ts, pos + n) {
                None => Ok((left, n)),
                Some(op) => match parse_at(tier, ts, pos + n + 1) {
                    Err(e) => Err(e),
                    Ok((right, m)) => Ok(
                        (ExprModel::Prim(op, Box::new(left), Box::new(right)), n + 1 + m),
                    ),
                },
            },
        },
        Tier::Unary => if token_is(ts, pos, TokenModel::Op(Operator::Minus)) {
            match parse_at(Tier::Atom, ts, pos + 1) {
                Err(e) => Err(e),
                Ok((operand, n)) => Ok((ExprModel::Minus(Box::new(operand)), n + 1)),
            }
        } else {
            parse_at(Tier::Atom, ts, pos)
        },
        Tier::Atom => if pos < 0 || pos >= ts.len() {
            Err(mismatch(ts, pos, Expected::Expression))
        } else {
            match ts[pos] {
                TokenModel::Int(i) => Ok((ExprModel::Value(Value::Int(i)), 1)),
                TokenModel::Bool(b) => Ok((ExprModel::Value(Value::Bool(b)), 1)),
                TokenModel::Var(name) => Ok((ExprModel::Ident(name), 1)),
                TokenModel::Sym(Sym::LParen) => parse_at(Tier::Paren, ts, pos),
                TokenModel::If => parse_at(Tier::If, ts, pos),
                TokenModel::Let => parse_at(Tier::Let, ts, pos),
                _ => Err(mismatch(ts, pos, Expected::Expression)),
            }
        },
        Tier::Paren => if pos < 0 || pos >= ts.len() {
            Err(mismatch(ts, pos, Expected::Expression))
        } else {
            match parse_at(Tier::Compare, ts, pos + 1) {
                Err(e) => Err(e),
                Ok((inner, n)) => if token_is(ts, pos + 1 + n, TokenModel::Sym(Sym::RParen)) {
                    Ok((inner, n + 2))
                } else {
                    Err(mismatch(ts, pos + 1 + n, Expected::RParen))
                },
            }
        },
        Tier::If => if pos < 0 || pos >= ts.len() {
            Err(mismatch(ts, pos, Expected::Expression))
        } else {
            match parse_at(Tier::Compare, ts, pos + 1) {
                Err(e) => Err(e),
                Ok((cond, n)) => if !token_is(ts, pos + 1 + n, TokenModel::Then) {
                    Err(mismatch(ts, pos + 1 + n, Expected::Then))
                } else {
                    match parse_at(Tier::Compare, ts, pos + 2 + n) {
                        Err(e) => Err(e),
                        Ok((then, m)) => if !token_is(ts, pos + 2 + n + m, TokenModel::Else) {
                            Err(mismatch(ts, pos + 2 + n + m, Expected::Else))
                        } else {
                            match parse_at(Tier::Compare, ts, pos + 3 + n + m) {
                                Err(e) => Err(e),
                                Ok((els, k)) => Ok(
                                    (
                                        ExprModel::IfThenElse(
                                            Box::new(cond),
                                            Box::new(then),
                                            Box::new(els),
                                        ),
                                        3 + n + m + k,
                                    ),
                                ),
                            }
                        },
                    }
                },
            }
        },
        Tier::Let => if pos < 0 || pos >= ts.len() {
            Err(mismatch(ts, pos, Expected::Expression))
        } else if !(pos + 1 < ts.len() && ts[pos + 1] is Var) {
            Err(mismatch(ts, pos + 1, Expected::Name))
        } else if !token_is(ts, pos + 2, TokenModel::Op(Operator::Equal)) {
            Err(mismatch(ts, pos + 2, Expected::Equal))
        } else {
            match parse_at(Tier::Compare, ts, pos + 3) {
                Err(e) => Err(e),
                Ok((bound, n)) => if !token_is(ts, pos + 3 + n, TokenModel::In) {
                    Err(mismatch(ts, pos + 3 + n, Expected::In))
                } else {
                    match parse_at(Tier::Compare, ts, pos + 4 + n) {
                        Err(e) => Err(e),
                        Ok((body, m)) => Ok(
                            (
                                ExprModel::Let(ts[pos + 1]->Var_0, Box::new(bound), Box::new(body)),
                                4 + n + m,
                            ),
                        ),
                    }
                },
            }
        },
    }
}

/// What an expression gives at position `pos`: an expression is a
/// comparison, the loosest tier.
pub open spec fn expr_at(ts: Seq<TokenModel>, pos: int) -> Parsed {
    parse_at(Tier::Compare, ts, pos)
}

/// An expression spans at least one token and ends within the tokens.
pub proof fn lemma_parse_spans(tier: Tier, ts: Seq<TokenModel>, pos: int)
    requires
        0 <= pos,
    ensures
        parse_at(tier, ts, pos) matches Ok((_, n)) ==> 1 <= n && pos + n <= ts.len(),
    decreases ts.len() - pos, rank(tier),
{
    match tier {
        Tier::Compare | Tier::Arith | Tier::Term => {
            lemma_parse_spans(tighter(tier), ts, pos);
            if let Ok((_, n)) = parse_at(tighter(tier), ts, pos) {
                if infix_at(tier, ts, pos + n) is Some {
                    lemma_parse_spans(tier, ts, pos + n + 1);
                }
            }
        },
        Tier::Unary => {
            if token_is(ts, pos, TokenModel::Op(Operator::Minus)) {
                lemma_parse_spans(Tier::Atom, ts, pos + 1);
            } else {
                lemma_parse_spans(Tier::Atom, ts, pos);
            }
        },
        Tier::Atom => {
            if pos < ts.len() {
                match ts[pos] {
                    TokenModel::Sym(Sym::LParen) => lemma_parse_spans(Tier::Paren, ts, pos),
                    TokenModel::If => lemma_parse_spans(Tier::If, ts, pos),
                    TokenModel::Let => lemma_parse_spans(Tier::Let, ts, pos),
                    _ => {},
                }
            }
        },
        Tier::Paren => {
            if pos < ts.len() {
                lemma_parse_spans(Tier::Compare, ts, pos + 1);
            }
        },
        Tier::If => {
            if pos < ts.len() {
                lemma_parse_spans(Tier::Compare, ts, pos + 1);
                if let Ok((_, n)) = parse_at(Tier::Compare, ts, pos + 1) {
                    if token_is(ts, pos + 1 + n, TokenModel::Then) {
                        lemma_parse_spans(Tier::Compare, ts, pos + 2 + n);
                        if let Ok((_, m)) = parse_at(Tier::Compare, ts, pos + 2 + n) {
                            if token_is(ts, pos + 2 + n + m, TokenModel::Else) {
                                lemma_parse_spans(Tier::Compare, ts, pos + 3 + n + m);
                            }
                        }
                    }
                }
            }
        },
        Tier::Let => {
            if pos + 2 < ts.len() {
                lemma_parse_spans(Tier::Compare, ts, pos + 3);
                if let Ok((_, n)) = parse_at(Tier::Compare, ts, pos + 3) {
                    if token_is(ts, pos + 3 + n, TokenModel::In) {
                        lemma_parse_spans(Tier::Compare, ts, pos + 4 + n);
                    }
                }
            }
        },
    }
}

/// Whether a binding starts at `pos`: a name, then an equals sign.
pub open spec fn binding_starts(ts: Seq<TokenModel>, pos: int) -> bool {
    0 <= pos && pos + 1 < ts.len() && ts[pos] is Var && ts[pos + 1] == TokenModel::Op(
        Operator::Equal,
    )
}

/// `name '=' expr (',' name '=' expr)*`, with the first name at `pos`:
/// the bindings, the one written last in front, and the number of tokens
/// that they span.
pub open spec fn bindings_at(ts: Seq<TokenModel>, pos: int) -> Result<
    (Seq<BindingModel>, nat),
    SyntaxErrorModel,
>
    recommends
        binding_starts(ts, pos),
    decreases ts.len() - pos,
    when 0 <= pos && pos + 1 < ts.len()
{
    match expr_at(ts, pos + 2) {
        Err(e) => Err(e),
        Ok((bound, n)) => {
            let this = seq![BindingModel { name: ts[pos]->Var_0, bound }];
            let next = pos + 2 + n;
            if !token_is(ts, next, TokenModel::Sym(Sym::Comma)) {
                Ok((this, 2 + n))
            } else if !(next + 1 < ts.len() && ts[next + 1] is Var) {
                Err(mismatch(ts, next + 1, Expected::Name))
            } else if !token_is(ts, next + 2, TokenModel::Op(Operator::Equal)) {
                Err(mismatch(ts, next + 2, Expected::Equal))
            } else {
                match bindings_at(ts, next + 1) {
                    Err(e) => Err(e),
                    Ok((later, m)) => Ok((later + this, 3 + n + m)),
                }
            }
        },
    }
}

/// `env := (name '=' expr (',' name '=' expr)*)?`, from the first token
/// on. The tokens start with an environment exactly when they start with
/// a name and an equals sign.
pub open spec fn env_at(ts: Seq<TokenModel>) -> Result<(Seq<BindingModel>, nat), SyntaxErrorModel> {
    if binding_starts(ts, 0) {
        bindings_at(ts, 0)
    } else {
        Ok((Seq::empty(), 0))
    }
}

/// The judgement that the tokens write down: an environment, then the
/// expression to evaluate, then nothing more. No result is claimed.
///
/// Nothing but the grammar parts the last binding from the expression: an
/// operator sign behind a binding carries the binding on, so that an
/// expression which starts with a minus sign cannot follow an
/// environment. `env_of` and `expr_of` take the two apart.
pub open spec fn form_of(ts: Seq<TokenModel>) -> Result<FormModel, SyntaxErrorModel> {
    match env_at(ts) {
        Err(e) => Err(e),
        Ok((env, n)) => match expr_at(ts, n as int) {
            Err(e) => Err(e),
            Ok((subject, m)) => if n + m == ts.len() {
                Ok(FormModel { env, subject, claimed: None })
            } else {
                Err(mismatch(ts, (n + m) as int, Expected::End))
            },
        },
    }
}

/// The environment that the tokens write down, where they hold an
/// environment and nothing more: no tokens are the empty environment, and
/// any others are bindings to the last token.
pub open spec fn env_of(ts: Seq<TokenModel>) -> Result<Seq<BindingModel>, SyntaxErrorModel> {
    if ts.len() == 0 {
        Ok(Seq::empty())
    } else if !(ts[0] is Var) {
        Err(mismatch(ts, 0, Expected::Name))
    } else if !token_is(ts, 1, TokenModel::Op(Operator::Equal)) {
        Err(mismatch(ts, 1, Expected::Equal))
    } else {
        match bindings_at(ts, 0) {
            Err(e) => Err(e),
            Ok((env, n)) => if n == ts.len() {
                Ok(env)
            } else {
                Err(mismatch(ts, n as int, Expected::End))
            },
        }
    }
}

/// The expression that the tokens write down, where they hold an
/// expression and nothing more.
pub open spec fn expr_of(ts: Seq<TokenModel>) -> Result<ExprModel, SyntaxErrorModel> {
    match expr_at(ts, 0) {
        Err(e) => Err(e),
        Ok((e, n)) => if n == ts.len() {
            Ok(e)
        } else {
            Err(mismatch(ts, n as int, Expected::End))
        },
    }
}

/// How what a parsing function returns for position `pos` stands to what
/// the grammar gives there: the same expression and the position behind
/// it, or the same error.
pub open spec fn agrees(
    res: Result<(Expr, usize), SyntaxError>,
    ts: Seq<TokenModel>,
    pos: usize,
    model: Parsed,
) -> bool {
    match model {
        Ok((m, n)) => res is Ok && res->Ok_0.0@ == m && res->Ok_0.1 == pos + n && pos + n
            <= ts.len(),
        Err(err) => res is Err && res->Err_0@ == err,
    }
}

/// The error at position `at`, where the grammar asks for `expected`.
fn unexpected(tokens: &[Token], at: usize, expected: Expected) -> (err: SyntaxError)
    ensures
        err@ == mismatch(token_models(tokens@), at as int, expected),
{
    if at < tokens.len() {
        SyntaxError { expected, found: Some(tokens[at].clone()) }
    } else {
        SyntaxError { expected, found: None }
    }
}

/// Whether two tokens are the same.
fn same_token(a: &Token, b: &Token) -> (res: bool)
    ensures
        res == (a@ == b@),
{
    match (a, b) {
        (Token::Int(x), Token::Int(y)) => *x == *y,
        (Token::Bool(x), Token::Bool(y)) => *x == *y,
        (Token::Op(x), Token::Op(y)) => *x == *y,
        (Token::Sym(x), Token::Sym(y)) => *x == *y,
        (Token::If, Token::If) => true,
        (Token::Then, Token::Then) => true,
        (Token::Else, Token::Else) => true,
        (Token::Var(x), Token::Var(y)) => *x == *y,
        (Token::Let, Token::Let) => true,
        (Token::In, Token::In) => true,
        _ => false,
    }
}

/// Whether the token at position `at` is `want`.
fn is_at(tokens: &[Token], at: usize, want: &Token) -> (res: bool)
    ensures
        res == token_is(token_models(tokens@), at as int, want@),
        res ==> at < usize::MAX,
{
    at < tokens.len() && same_token(&tokens[at], want)
}

/// Whether the token at position `at` is a name.
fn name_at(tokens: &[Token], at: usize) -> (res: bool)
    ensures
        res == (at < tokens@.len() && token_models(tokens@)[at as int] is Var),
        res ==> at < usize::MAX,
{
    if at < tokens.len() {
        match &tokens[at] {
            Token::Var(_) => true,
            _ => false,
        }
    } else {
        false
    }
}

/// The name at position `at`.
fn take_name(tokens: &[Token], at: usize) -> (name: String)
    requires
        at < tokens@.len(),
        token_models(tokens@)[at as int] is Var,
    ensures
        name@ == token_models(tokens@)[at as int]->Var_0,
{
    match &tokens[at] {
        Token::Var(name) => name.clone(),
        _ => unreached(),
    }
}

/// Parses an expression that starts at `pos`.
pub fn expr(tokens: &[Token], pos: usize) -> (res: Result<(Expr, usize), SyntaxError>)
    requires
        pos <= tokens@.len(),
    ensures
        agrees(
            res,
            token_models(tokens@),
            pos,
            parse_at(Tier::Compare, token_models(tokens@), pos as int),
        ),
    decreases tokens@.len() - pos, 6int,
{
    op_compare(tokens, pos)
}

/// `compare := arith ('<' compare)?`
fn op_compare(tokens: &[Token], pos: usize) -> (res: Result<(Expr, usize), SyntaxError>)
    requires
        pos <= tokens@.len(),
    ensures
        agrees(
            res,
            token_models(tokens@),
            pos,
            parse_at(Tier::Compare, token_models(tokens@), pos as int),
        ),
    decreases tokens@.len() - pos, 5int,
{
    let (left, next) = match op_arith1(tokens, pos) {
        Ok(found) => found,
        Err(e) => {
            return Err(e);
        },
    };
    if is_at(tokens, next, &Token::Op(Operator::LessThan)) {
        match op_compare(tokens, next + 1) {
            Ok((right, end)) => Ok(
                (Expr::Prim(Prim::LessThan(Box::new(left), Box::new(right))), end),
            ),
            Err(e) => Err(e),
        }
    } else {
        Ok((left, next))
    }
}

/// `arith := term (('+' | '-') arith)?`
fn op_arith1(tokens: &[Token], pos: usize) -> (res: Result<(Expr, usize), SyntaxError>)
    requires
        pos <= tokens@.len(),
    ensures
        agrees(
            res,
            token_models(tokens@),
            pos,
            parse_at(Tier::Arith, token_models(tokens@), pos as int),
        ),
    decreases tokens@.len() - pos, 4int,
{
    let (left, next) = match op_arith2(tokens, pos) {
        Ok(found) => found,
        Err(e) => {
            return Err(e);
        },
    };
    if is_at(tokens, next, &Token::Op(Operator::Plus)) {
        match op_arith1(tokens, next + 1) {
            Ok((right, end)) => Ok((Expr::Prim(Prim::Add(Box::new(left), Box::new(right))), end)),
            Err(e) => Err(e),
        }
    } else if is_at(tokens, next, &Token::Op(Operator::Minus)) {
        match op_arith1(tokens, next + 1) {
            Ok((right, end)) => Ok((Expr::Prim(Prim::Sub(Box::new(left), Box::new(right))), end)),
            Err(e) => Err(e),
        }
    } else {
        Ok((left, next))
    }
}

/// `term := unary ('*' term)?`
fn op_arith2(tokens: &[Token], pos: usize) -> (res: Result<(Expr, usize), SyntaxError>)
    requires
        pos <= tokens@.len(),
    ensures
        agrees(
            res,
            token_models(tokens@),
            pos,
            parse_at(Tier::Term, token_models(tokens@), pos as int),
        ),
    decreases tokens@.len() - pos, 3int,
{
    let (left, next) = match unary(tokens, pos) {
        Ok(found) => found,
        Err(e) => {
            return Err(e);
        },
    };
    if is_at(tokens, next, &Token::Op(Operator::Mul)) {
        match op_arith2(tokens, next + 1) {
            Ok((right, end)) => Ok((Expr::Prim(Prim::Mul(Box::new(left), Box::new(right))), end)),
            Err(e) => Err(e),
        }
    } else {
        Ok((left, next))
    }
}

/// `unary := '-' atom | atom`
fn unary(tokens: &[Token], pos: usize) -> (res: Result<(Expr, usize), SyntaxError>)
    requires
        pos <= tokens@.len(),
    ensures
        agrees(
            res,
            token_models(tokens@),
            pos,
            parse_at(Tier::Unary, token_models(tokens@), pos as int),
        ),
    decreases tokens@.len() - pos, 2int,
{
    if is_at(tokens, pos, &Token::Op(Operator::Minus)) {
        match value(tokens, pos + 1) {
            Ok((operand, end)) => Ok((Expr::Unary(Unary::Minus(Box::new(operand))), end)),
            Err(e) => Err(e),
        }
    } else {
        value(tokens, pos)
    }
}

/// `atom := int | bool | name | '(' expr ')' | 'if' .. | 'let' ..`
fn value(tokens: &[Token], pos: usize) -> (res: Result<(Expr, usize), SyntaxError>)
    requires
        pos <= tokens@.len(),
    ensures
        agrees(
            res,
            token_models(tokens@),
            pos,
            parse_at(Tier::Atom, token_models(tokens@), pos as int),
        ),
    decreases tokens@.len() - pos, 1int,
{
    if pos >= tokens.len() {
        return Err(unexpected(tokens, pos, Expected::Expression));
    }
    match &tokens[pos] {
        Token::Int(i) => Ok((Expr::Value(Value::Int(*i)), pos + 1)),
        Token::Bool(b) => Ok((Expr::Value(Value::Bool(*b)), pos + 1)),
        Token::Var(name) => Ok((Expr::Ident(name.clone()), pos + 1)),
        Token::Sym(Sym::LParen) => paren_expr(tokens, pos),
        Token::If => if_then_else(tokens, pos),
        Token::Let => let_in(tokens, pos),
        _ => Err(unexpected(tokens, pos, Expected::Expression)),
    }
}

/// `'(' expr ')'`, with the opening parenthesis at `pos`.
fn paren_expr(tokens: &[Token], pos: usize) -> (res: Result<(Expr, usize), SyntaxError>)
    requires
        pos < tokens@.len(),
    ensures
        agrees(
            res,
            token_models(tokens@),
            pos,
            parse_at(Tier::Paren, token_models(tokens@), pos as int),
        ),
    decreases tokens@.len() - pos, 0int,
{
    assert(pos < tokens.len());
    let (inner, next) = match expr(tokens, pos + 1) {
        Ok(found) => found,
        Err(e) => {
            return Err(e);
        },
    };
    if is_at(tokens, next, &Token::Sym(Sym::RParen)) {
        Ok((inner, next + 1))
    } else {
        Err(unexpected(tokens, next, Expected::RParen))
    }
}

/// `'if' expr 'then' expr 'else' expr`, with the `if` at `pos`.
fn if_then_else(tokens: &[Token], pos: usize) -> (res: Result<(Expr, usize), SyntaxError>)
    requires
        pos < tokens@.len(),
    ensures
        agrees(
            res,
            token_models(tokens@),
            pos,
            parse_at(Tier::If, token_models(tokens@), pos as int),
        ),
    decreases tokens@.len() - pos, 0int,
{
    assert(pos < tokens.len());
    let (cond, after_cond) = match expr(tokens, pos + 1) {
        Ok(found) => found,
        Err(e) => {
            return Err(e);
        },
    };
    if !is_at(tokens, after_cond, &Token::Then) {
        return Err(unexpected(tokens, after_cond, Expected::Then));
    }
    let (then, after_then) = match expr(tokens, after_cond + 1) {
        Ok(found) => found,
        Err(e) => {
            return Err(e);
        },
    };
    if !is_at(tokens, after_then, &Token::Else) {
        return Err(unexpected(tokens, after_then, Expected::Else));
    }
    match expr(tokens, after_then + 1) {
        Ok((els, end)) => Ok(
            (Expr::IfThenElse(Box::new(cond), Box::new(then), Box::new(els)), end),
        ),
        Err(e) => Err(e),
    }
}

/// `'let' name '=' expr 'in' expr`, with the `let` at `pos`.
fn let_in(tokens: &[Token], pos: usize) -> (res: Result<(Expr, usize), SyntaxError>)
    requires
        pos < tokens@.len(),
    ensures
        agrees(
            res,
            token_models(tokens@),
            pos,
            parse_at(Tier::Let, token_models(tokens@), pos as int),
        ),
    decreases tokens@.len() - pos, 0int,
{
    assert(pos < tokens.len());
    if !name_at(tokens, pos + 1) {
        return Err(unexpected(tokens, pos + 1, Expected::Name));
    }
    if !is_at(tokens, pos + 2, &Token::Op(Operator::Equal)) {
        return Err(unexpected(tokens, pos + 2, Expected::Equal));
    }
    let name = take_name(tokens, pos + 1);
    let (bound, after_bound) = match expr(tokens, pos + 3) {
        Ok(found) => found,
        Err(e) => {
            return Err(e);
        },
    };
    if !is_at(tokens, after_bound, &Token::In) {
        return Err(unexpected(tokens, after_bound, Expected::In));
    }
    match expr(tokens, after_bound + 1) {
        Ok((body, end)) => Ok((Expr::Let(name, Box::new(bound), Box::new(body)), end)),
        Err(e) => Err(e),
    }
}

/// Parses the bindings that start at `pos`, where a name and an equals
/// sign stand. The binding written last comes out in front.
fn env(tokens: &[Token], pos: usize) -> (res: Result<(Env, usize), SyntaxError>)
    requires
        binding_starts(token_models(tokens@), pos as int),
    ensures
        match bindings_at(token_models(tokens@), pos as int) {
            Ok((m, n)) => res is Ok && res->Ok_0.0@ == m && res->Ok_0.1 == pos + n && pos + n
                <= tokens@.len(),
            Err(err) => res is Err && res->Err_0@ == err,
        },
    decreases tokens@.len() - pos,
{
    assert(pos + 1 < tokens.len());
    let name = take_name(tokens, pos);
    let (bound, next) = match expr(tokens, pos + 2) {
        Ok(found) => found,
        Err(e) => {
            return Err(e);
        },
    };
    let this = EnvVar(name, bound);
    if !is_at(tokens, next, &Token::Sym(Sym::Comma)) {
        let mut items: Vec<EnvVar> = Vec::new();
        items.push(this);
        let env = Env(items);
        assert(env@ =~= seq![this@]);
        return Ok((env, next));
    }
    if !name_at(tokens, next + 1) {
        return Err(unexpected(tokens, next + 1, Expected::Name));
    }
    if !is_at(tokens, next + 2, &Token::Op(Operator::Equal)) {
        return Err(unexpected(tokens, next + 2, Expected::Equal));
    }
    match env(tokens, next + 1) {
        Ok((later, end)) => {
            let mut items = later.0;
            items.push(this);
            let env = Env(items);
            assert(env@ =~= later@ + seq![this@]);
            Ok((env, end))
        },
        Err(e) => Err(e),
    }
}

/// Parses a judgement from the first token on, as far as it goes: the
/// environment, where the tokens start with one, then the expression.
fn form(tokens: &[Token]) -> (res: Result<(Form, usize), SyntaxError>)
    ensures
        match env_at(token_models(tokens@)) {
            Err(err) => res is Err && res->Err_0@ == err,
            Ok((env, n)) => match expr_at(token_models(tokens@), n as int) {
                Err(err) => res is Err && res->Err_0@ == err,
                Ok((subject, m)) => res is Ok && res->Ok_0.0@ == (FormModel {
                    env,
                    subject,
                    claimed: None,
                }) && res->Ok_0.1 == n + m && n + m <= tokens@.len(),
            },
        },
{
    let (bindings, next) = if name_at(tokens, 0) && is_at(
        tokens,
        1,
        &Token::Op(Operator::Equal),
    ) {
        match env(tokens, 0) {
            Ok(found) => found,
            Err(e) => {
                return Err(e);
            },
        }
    } else {
        let empty = Env(Vec::new());
        assert(empty@ =~= Seq::<BindingModel>::empty());
        (empty, 0)
    };
    match expr(tokens, next) {
        Ok((subject, end)) => Ok((Form(bindings, subject, None), end)),
        Err(e) => Err(e),
    }
}

/// Parses a judgement: an environment, where the tokens start with one,
/// then the expression to evaluate, then nothing more. The judgement
/// claims no result. Where the tokens do not fit the grammar, the first
/// place where they do not is returned, with what the grammar asks for
/// there.
pub fn parse(tokens: &[Token]) -> (res: Result<Form, SyntaxError>)
    ensures
        match form_of(token_models(tokens@)) {
            Ok(m) => res is Ok && res->Ok_0@ == m,
            Err(err) => res is Err && res->Err_0@ == err,
        },
{
    match form(tokens) {
        Ok((parsed, end)) => {
            if end == tokens.len() {
                Ok(parsed)
            } else {
                Err(unexpected(tokens, end, Expected::End))
            }
        },
        Err(e) => Err(e),
    }
}

/// Parses an environment that stands alone: bindings with a comma
/// between two of them, to the last token, the binding written last in
/// front. No tokens are the empty environment.
pub fn parse_env(tokens: &[Token]) -> (res: Result<Env, SyntaxError>)
    ensures
        match env_of(token_models(tokens@)) {
            Ok(m) => res is Ok && res->Ok_0@ == m,
            Err(err) => res is Err && res->Err_0@ == err,
        },
{
    if tokens.len() == 0 {
        let empty = Env(Vec::new());
        assert(empty@ =~= Seq::<BindingModel>::empty());
        return Ok(empty);
    }
    if !name_at(tokens, 0) {
        return Err(unexpected(tokens, 0, Expected::Name));
    }
    if !is_at(tokens, 1, &Token::Op(Operator::Equal)) {
        return Err(unexpected(tokens, 1, Expected::Equal));
    }
    match env(tokens, 0) {
        Ok((bindings, end)) => {
            if end == tokens.len() {
                Ok(bindings)
            } else {
                Err(unexpected(tokens, end, Expected::End))
            }
        },
        Err(e) => Err(e),
    }
}

/// Parses an expression that stands alone: from the first token to the
/// last.
pub fn parse_expr(tokens: &[Token]) -> (res: Result<Expr, SyntaxError>)
    ensures
        match expr_of(token_models(tokens@)) {
            Ok(m) => res is Ok && res->Ok_0@ == m,
            Err(err) => res is Err && res->Err_0@ == err,
        },
{
    match expr(tokens, 0) {
        Ok((parsed, end)) => {
            if end == tokens.len() {
                Ok(parsed)
            } else {
                Err(unexpected(tokens, end, Expected::End))
            }
        },
        Err(e) => Err(e),
    }
}

} // verus!
