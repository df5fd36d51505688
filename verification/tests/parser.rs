use solver::expr::{Env, EnvVar, Expr, Prim, Unary, Value};
use solver::parser::{expr, parse, parse_env, parse_expr, Expected, SyntaxError};
use solver::tokenizer::{tokenize, Operator, Sym, Token};

fn num(i: isize) -> Expr {
    Expr::Value(Value::Int(i))
}

fn truth(b: bool) -> Expr {
    Expr::Value(Value::Bool(b))
}

fn var(s: &str) -> Expr {
    Expr::Ident(s.to_string())
}

fn plus(l: Expr, r: Expr) -> Expr {
    Expr::Prim(Prim::Add(Box::new(l), Box::new(r)))
}

fn minus(l: Expr, r: Expr) -> Expr {
    Expr::Prim(Prim::Sub(Box::new(l), Box::new(r)))
}

fn times(l: Expr, r: Expr) -> Expr {
    Expr::Prim(Prim::Mul(Box::new(l), Box::new(r)))
}

fn less(l: Expr, r: Expr) -> Expr {
    Expr::Prim(Prim::LessThan(Box::new(l), Box::new(r)))
}

fn negative(e: Expr) -> Expr {
    Expr::Unary(Unary::Minus(Box::new(e)))
}

fn cond(c: Expr, t: Expr, e: Expr) -> Expr {
    Expr::IfThenElse(Box::new(c), Box::new(t), Box::new(e))
}

fn bind(name: &str, bound: Expr, body: Expr) -> Expr {
    Expr::Let(name.to_string(), Box::new(bound), Box::new(body))
}

fn subject(text: &str) -> Expr {
    let form = parse(&tokenize(text.as_bytes()).unwrap()).unwrap();
    assert_eq!(form.0, Env(vec![]));
    assert_eq!(form.2, None);
    form.1
}

fn failure(text: &str) -> SyntaxError {
    parse(&tokenize(text.as_bytes()).unwrap()).unwrap_err()
}

#[test]
fn literals_and_names() {
    assert_eq!(subject("42"), num(42));
    assert_eq!(subject("true"), truth(true));
    assert_eq!(subject("false"), truth(false));
    assert_eq!(subject("x"), var("x"));
}

#[test]
fn multiplication_binds_tighter_than_addition() {
    assert_eq!(subject("1 + 2 * 3"), plus(num(1), times(num(2), num(3))));
    assert_eq!(subject("1 * 2 + 3"), plus(times(num(1), num(2)), num(3)));
    assert_eq!(subject("1 * 2 - 3"), minus(times(num(1), num(2)), num(3)));
}

#[test]
fn addition_binds_tighter_than_comparison() {
    assert_eq!(subject("1 + 2 < 3 * 4"), less(plus(num(1), num(2)), times(num(3), num(4))));
}

#[test]
fn operators_of_one_tier_group_to_the_right() {
    assert_eq!(subject("1 - 2 - 3"), minus(num(1), minus(num(2), num(3))));
    assert_eq!(subject("1 - 2 + 3"), minus(num(1), plus(num(2), num(3))));
    assert_eq!(subject("1 * 2 * 3"), times(num(1), times(num(2), num(3))));
    assert_eq!(subject("1 < 2 < 3"), less(num(1), less(num(2), num(3))));
}

#[test]
fn parentheses_group() {
    assert_eq!(subject("(1 + 2) * 3"), times(plus(num(1), num(2)), num(3)));
    assert_eq!(subject("((7))"), num(7));
    assert_eq!(subject("(1 - 2) - 3"), minus(minus(num(1), num(2)), num(3)));
}

#[test]
fn unary_minus_takes_an_atom() {
    assert_eq!(subject("-3"), negative(num(3)));
    assert_eq!(subject("-x * 2"), times(negative(var("x")), num(2)));
    assert_eq!(subject("1 - -2"), minus(num(1), negative(num(2))));
    assert_eq!(subject("-(1 + 2)"), negative(plus(num(1), num(2))));
    assert_eq!(
        subject("-if true then 1 else 2"),
        negative(cond(truth(true), num(1), num(2)))
    );
}

#[test]
fn a_second_minus_sign_is_no_atom() {
    let err = failure("- - 3");
    assert_eq!(err.expected, Expected::Expression);
    assert_eq!(err.found, Some(Token::Op(Operator::Minus)));
}

#[test]
fn conditionals() {
    assert_eq!(
        subject("if 1 < 2 then 10 else 20"),
        cond(less(num(1), num(2)), num(10), num(20))
    );
    assert_eq!(
        subject("if a then if b then 1 else 2 else 3"),
        cond(var("a"), cond(var("b"), num(1), num(2)), num(3))
    );
}

#[test]
fn a_conditional_takes_all_that_follows_its_else() {
    assert_eq!(
        subject("if a then 1 else 2 + 3"),
        cond(var("a"), num(1), plus(num(2), num(3)))
    );
    assert_eq!(
        subject("1 + if a then 2 else 3 * 4"),
        plus(num(1), cond(var("a"), num(2), times(num(3), num(4))))
    );
}

#[test]
fn let_bindings() {
    assert_eq!(
        subject("let x = 1 in x + 2"),
        bind("x", num(1), plus(var("x"), num(2)))
    );
    assert_eq!(
        subject("let x = 1 in let x = x + 1 in x"),
        bind("x", num(1), bind("x", plus(var("x"), num(1)), var("x")))
    );
    assert_eq!(
        subject("let x = let y = 1 in y in x"),
        bind("x", bind("y", num(1), var("y")), var("x"))
    );
}

#[test]
fn the_parser_does_not_judge_types() {
    assert_eq!(subject("1 + true"), plus(num(1), truth(true)));
    assert_eq!(
        subject("if 1 then true else -false"),
        cond(num(1), truth(true), negative(truth(false)))
    );
}

#[test]
fn an_environment_comes_before_the_expression() {
    let form = parse(&tokenize(b"x = 1 x + 2").unwrap()).unwrap();
    assert_eq!(form.0, Env(vec![EnvVar("x".to_string(), num(1))]));
    assert_eq!(form.1, plus(var("x"), num(2)));
    assert_eq!(form.2, None);
}

#[test]
fn the_binding_written_last_is_in_front() {
    let form = parse(&tokenize(b"x = 10, y = true, x = 3 if x then y + 1 else y - 1").unwrap())
        .unwrap();
    assert_eq!(
        form.0,
        Env(vec![
            EnvVar("x".to_string(), num(3)),
            EnvVar("y".to_string(), truth(true)),
            EnvVar("x".to_string(), num(10)),
        ])
    );
    assert_eq!(
        form.1,
        cond(var("x"), plus(var("y"), num(1)), minus(var("y"), num(1)))
    );
}

#[test]
fn a_binding_holds_the_expression_as_written() {
    let form = parse(&tokenize(b"x = 1 + 2 x").unwrap()).unwrap();
    assert_eq!(form.0, Env(vec![EnvVar("x".to_string(), plus(num(1), num(2)))]));
    assert!(!form.0.is_well_formed());
    assert_eq!(form.1, var("x"));
}

#[test]
fn a_name_alone_is_an_expression_not_an_environment() {
    let form = parse(&tokenize(b"x").unwrap()).unwrap();
    assert_eq!(form.0, Env(vec![]));
    assert_eq!(form.1, var("x"));
}

#[test]
fn a_dangling_operator_is_a_syntax_error() {
    let err = failure("1 +");
    assert_eq!(err, SyntaxError { expected: Expected::Expression, found: None });
    assert_eq!(failure("1 *"), SyntaxError { expected: Expected::Expression, found: None });
    assert_eq!(failure("1 <"), SyntaxError { expected: Expected::Expression, found: None });
    assert_eq!(failure("-"), SyntaxError { expected: Expected::Expression, found: None });
}

#[test]
fn no_tokens_are_no_judgement() {
    assert_eq!(parse(&[]), Err(SyntaxError { expected: Expected::Expression, found: None }));
}

#[test]
fn a_token_that_starts_no_expression() {
    assert_eq!(
        failure("1 + )"),
        SyntaxError { expected: Expected::Expression, found: Some(Token::Sym(Sym::RParen)) }
    );
    assert_eq!(
        failure("then"),
        SyntaxError { expected: Expected::Expression, found: Some(Token::Then) }
    );
    assert_eq!(
        failure("* 2"),
        SyntaxError { expected: Expected::Expression, found: Some(Token::Op(Operator::Mul)) }
    );
}

#[test]
fn a_missing_closing_parenthesis() {
    assert_eq!(failure("(1 + 2"), SyntaxError { expected: Expected::RParen, found: None });
    assert_eq!(
        failure("(1 2)"),
        SyntaxError { expected: Expected::RParen, found: Some(Token::Int(2)) }
    );
}

#[test]
fn a_missing_then() {
    assert_eq!(failure("if 1"), SyntaxError { expected: Expected::Then, found: None });
    assert_eq!(
        failure("if 1 else 2"),
        SyntaxError { expected: Expected::Then, found: Some(Token::Else) }
    );
}

#[test]
fn a_missing_else() {
    assert_eq!(failure("if 1 then 2"), SyntaxError { expected: Expected::Else, found: None });
    assert_eq!(
        failure("if 1 then 2 in 3"),
        SyntaxError { expected: Expected::Else, found: Some(Token::In) }
    );
}

#[test]
fn a_missing_in() {
    assert_eq!(failure("let x = 1"), SyntaxError { expected: Expected::In, found: None });
    assert_eq!(
        failure("let x = 1 x"),
        SyntaxError { expected: Expected::In, found: Some(Token::Var("x".to_string())) }
    );
}

#[test]
fn a_let_without_a_name() {
    assert_eq!(failure("let"), SyntaxError { expected: Expected::Name, found: None });
    assert_eq!(
        failure("let 1 = 2 in 3"),
        SyntaxError { expected: Expected::Name, found: Some(Token::Int(1)) }
    );
}

#[test]
fn a_let_without_an_equals_sign() {
    assert_eq!(failure("let x"), SyntaxError { expected: Expected::Equal, found: None });
    assert_eq!(
        failure("let x 1 in x"),
        SyntaxError { expected: Expected::Equal, found: Some(Token::Int(1)) }
    );
}

#[test]
fn tokens_behind_a_complete_judgement() {
    assert_eq!(
        failure("1 2"),
        SyntaxError { expected: Expected::End, found: Some(Token::Int(2)) }
    );
    assert_eq!(
        failure("(1))"),
        SyntaxError { expected: Expected::End, found: Some(Token::Sym(Sym::RParen)) }
    );
    assert_eq!(
        failure("x = 1 x = 2 x"),
        SyntaxError { expected: Expected::End, found: Some(Token::Op(Operator::Equal)) }
    );
}

#[test]
fn a_comma_asks_for_another_binding() {
    assert_eq!(
        failure("x = 1, 2"),
        SyntaxError { expected: Expected::Name, found: Some(Token::Int(2)) }
    );
    assert_eq!(failure("x = 1,"), SyntaxError { expected: Expected::Name, found: None });
    assert_eq!(
        failure("x = 1, y 2"),
        SyntaxError { expected: Expected::Equal, found: Some(Token::Int(2)) }
    );
    assert_eq!(failure("x = 1, y"), SyntaxError { expected: Expected::Equal, found: None });
}

#[test]
fn an_environment_without_an_expression() {
    assert_eq!(failure("x = 1"), SyntaxError { expected: Expected::Expression, found: None });
    assert_eq!(failure("x ="), SyntaxError { expected: Expected::Expression, found: None });
}

#[test]
fn an_expression_can_be_parsed_from_the_middle() {
    let tokens = tokenize(b"1 + 2 * 3 then").unwrap();
    assert_eq!(expr(&tokens, 2), Ok((times(num(2), num(3)), 5)));
    assert_eq!(expr(&tokens, 0), Ok((plus(num(1), times(num(2), num(3))), 5)));
    assert_eq!(
        expr(&tokens, 5),
        Err(SyntaxError { expected: Expected::Expression, found: Some(Token::Then) })
    );
    assert_eq!(
        expr(&tokens, 6),
        Err(SyntaxError { expected: Expected::Expression, found: None })
    );
}

#[test]
fn syntax_errors_say_what_was_expected_and_what_was_found() {
    assert_eq!(failure("1 +").message(), "expected an expression, found the end of the input");
    assert_eq!(failure("(1 2").message(), "expected ')', found '2'");
    assert_eq!(failure("if 1 else").message(), "expected 'then', found 'else'");
    assert_eq!(failure("if 1 then 2 x").message(), "expected 'else', found 'x'");
    assert_eq!(failure("let x = 1 + 2").message(), "expected 'in', found the end of the input");
    assert_eq!(failure("let = 1").message(), "expected a name, found '='");
    assert_eq!(failure("let x, 1").message(), "expected '=', found ','");
    assert_eq!(failure("1 true").message(), "expected the end of the input, found 'true'");
}

#[test]
fn what_the_grammar_asks_for_in_words() {
    assert_eq!(Expected::Expression.text(), "an expression");
    assert_eq!(Expected::RParen.text(), "')'");
    assert_eq!(Expected::Then.text(), "'then'");
    assert_eq!(Expected::Else.text(), "'else'");
    assert_eq!(Expected::In.text(), "'in'");
    assert_eq!(Expected::Name.text(), "a name");
    assert_eq!(Expected::Equal.text(), "'='");
    assert_eq!(Expected::End.text(), "the end of the input");
}

#[test]
fn syntax_errors_can_be_cloned() {
    let err = failure("(1 x");
    assert_eq!(err.clone(), err);
    let end = failure("(1");
    assert_eq!(end.clone(), end);
}

fn tokens(text: &str) -> Vec<Token> {
    tokenize(text.as_bytes()).unwrap()
}

#[test]
fn an_environment_alone() {
    assert_eq!(parse_env(&tokens("")), Ok(Env(vec![])));
    assert_eq!(
        parse_env(&tokens("x = 1")),
        Ok(Env(vec![EnvVar("x".to_string(), num(1))]))
    );
    assert_eq!(
        parse_env(&tokens("x = 10, y = true")),
        Ok(Env(vec![
            EnvVar("y".to_string(), truth(true)),
            EnvVar("x".to_string(), num(10)),
        ]))
    );
    assert_eq!(
        parse_env(&tokens("x = 1, y = x - 2, x = -3")),
        Ok(Env(vec![
            EnvVar("x".to_string(), negative(num(3))),
            EnvVar("y".to_string(), minus(var("x"), num(2))),
            EnvVar("x".to_string(), num(1)),
        ]))
    );
}

#[test]
fn an_environment_alone_ends_with_its_last_binding() {
    assert_eq!(
        parse_env(&tokens("x = 1 x")),
        Err(SyntaxError { expected: Expected::End, found: Some(Token::Var("x".to_string())) })
    );
    assert_eq!(
        parse_env(&tokens("x = 1,")),
        Err(SyntaxError { expected: Expected::Name, found: None })
    );
    assert_eq!(
        parse_env(&tokens("x = ")),
        Err(SyntaxError { expected: Expected::Expression, found: None })
    );
}

#[test]
fn an_environment_alone_starts_with_a_binding() {
    assert_eq!(
        parse_env(&tokens("1")),
        Err(SyntaxError { expected: Expected::Name, found: Some(Token::Int(1)) })
    );
    assert_eq!(
        parse_env(&tokens("x")),
        Err(SyntaxError { expected: Expected::Equal, found: None })
    );
    assert_eq!(
        parse_env(&tokens("x + 1")),
        Err(SyntaxError { expected: Expected::Equal, found: Some(Token::Op(Operator::Plus)) })
    );
    assert_eq!(
        parse_env(&tokens(", x = 1")),
        Err(SyntaxError { expected: Expected::Name, found: Some(Token::Sym(Sym::Comma)) })
    );
}

#[test]
fn an_expression_alone() {
    assert_eq!(parse_expr(&tokens("1 + 2 * 3")), Ok(plus(num(1), times(num(2), num(3)))));
    assert_eq!(parse_expr(&tokens("-x")), Ok(negative(var("x"))));
    assert_eq!(parse_expr(&tokens("x")), Ok(var("x")));
}

#[test]
fn an_expression_alone_takes_no_environment() {
    assert_eq!(
        parse_expr(&tokens("x = 1 x")),
        Err(SyntaxError { expected: Expected::End, found: Some(Token::Op(Operator::Equal)) })
    );
    assert_eq!(
        parse_expr(&tokens("")),
        Err(SyntaxError { expected: Expected::Expression, found: None })
    );
    assert_eq!(
        parse_expr(&tokens("1 2")),
        Err(SyntaxError { expected: Expected::End, found: Some(Token::Int(2)) })
    );
}

#[test]
fn kept_apart_a_subject_may_start_with_a_minus_sign() {
    let env = parse_env(&tokens("x = 1")).unwrap();
    let subject = parse_expr(&tokens("-x")).unwrap();
    assert_eq!(env, Env(vec![EnvVar("x".to_string(), num(1))]));
    assert_eq!(subject, negative(var("x")));
    let joined = parse(&tokens("x = 1 -x")).unwrap_err();
    assert_eq!(joined, SyntaxError { expected: Expected::Expression, found: None });
}
