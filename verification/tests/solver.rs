use solver::expr::{Env, EnvVar, Expr, Prim, Unary, Value};
use solver::parser::{parse, parse_env};
use solver::solver::{eval, find, settle, EvalError, EvalResult};
use solver::tokenizer::tokenize;

fn num(i: isize) -> Expr {
    Expr::Value(Value::Int(i))
}

fn truth(b: bool) -> Expr {
    Expr::Value(Value::Bool(b))
}

fn var(s: &str) -> Expr {
    Expr::Ident(s.to_string())
}

fn empty() -> Env {
    Env(vec![])
}

fn run(text: &str) -> EvalResult {
    let form = parse(&tokenize(text.as_bytes()).unwrap()).unwrap();
    assert!(form.0.is_well_formed());
    eval(&form.0, &form.1)
}

fn value(i: isize) -> EvalResult {
    EvalResult::Value(Value::Int(i))
}

fn verdict(b: bool) -> EvalResult {
    EvalResult::Value(Value::Bool(b))
}

fn fault(e: EvalError) -> EvalResult {
    EvalResult::Error(e)
}

#[test]
fn a_value_evaluates_to_itself() {
    assert_eq!(eval(&empty(), &num(5)), value(5));
    assert_eq!(eval(&empty(), &num(-5)), value(-5));
    assert_eq!(eval(&empty(), &truth(true)), verdict(true));
    assert_eq!(eval(&empty(), &truth(false)), verdict(false));
}

#[test]
fn arithmetic_on_integers() {
    assert_eq!(run("3 + 4"), value(7));
    assert_eq!(run("3 - 4"), value(-1));
    assert_eq!(run("3 * 4"), value(12));
    assert_eq!(run("3 < 4"), verdict(true));
    assert_eq!(run("4 < 4"), verdict(false));
    assert_eq!(run("5 < 4"), verdict(false));
}

#[test]
fn one_plus_two_times_three_is_seven() {
    assert_eq!(run("1 + 2 * 3"), value(7));
    assert_eq!(run("(1 + 2) * 3"), value(9));
}

#[test]
fn subtraction_groups_to_the_right() {
    assert_eq!(run("1 - 2 - 3"), value(2));
    assert_eq!(run("(1 - 2) - 3"), value(-4));
}

#[test]
fn unary_minus_negates_an_integer() {
    assert_eq!(run("-3"), value(-3));
    assert_eq!(run("-(2 - 5)"), value(3));
    assert_eq!(run("4 * -2"), value(-8));
}

#[test]
fn unary_minus_on_a_truth_value_is_a_fault() {
    assert_eq!(run("-true"), fault(EvalError::UnaryMinusBool));
    assert_eq!(run("-(1 < 2)"), fault(EvalError::UnaryMinusBool));
}

#[test]
fn unary_minus_passes_a_fault_on() {
    assert_eq!(run("-(1 + true)"), fault(EvalError::PlusBoolR));
    assert_eq!(run("-(if 1 then 2 else 3)"), fault(EvalError::IfInt));
    assert_eq!(run("-x"), fault(EvalError::VarNotFound));
}

#[test]
fn arithmetic_wraps_around() {
    let max = Box::new(num(isize::MAX));
    let min = Box::new(num(isize::MIN));
    assert_eq!(
        eval(&empty(), &Expr::Prim(Prim::Add(max.clone(), Box::new(num(1))))),
        value(isize::MIN)
    );
    assert_eq!(
        eval(&empty(), &Expr::Prim(Prim::Sub(min.clone(), Box::new(num(1))))),
        value(isize::MAX)
    );
    assert_eq!(
        eval(&empty(), &Expr::Prim(Prim::Mul(max.clone(), Box::new(num(2))))),
        value(-2)
    );
    assert_eq!(
        eval(&empty(), &Expr::Prim(Prim::Mul(min.clone(), Box::new(num(-1))))),
        value(isize::MIN)
    );
    assert_eq!(eval(&empty(), &Expr::Unary(Unary::Minus(min))), value(isize::MIN));
    assert_eq!(eval(&empty(), &Expr::Unary(Unary::Minus(max))), value(isize::MIN + 1));
}

#[test]
fn a_truth_value_on_the_left_is_reported_first() {
    assert_eq!(run("true + 1"), fault(EvalError::PlusBoolL));
    assert_eq!(run("true + false"), fault(EvalError::PlusBoolL));
    assert_eq!(run("true + (1 + true)"), fault(EvalError::PlusBoolL));
    assert_eq!(run("true - 1"), fault(EvalError::MinusBoolL));
    assert_eq!(run("false - true"), fault(EvalError::MinusBoolL));
    assert_eq!(run("true * 1"), fault(EvalError::TimesBoolL));
    assert_eq!(run("true * -true"), fault(EvalError::TimesBoolL));
    assert_eq!(run("true < 1"), fault(EvalError::LtBoolL));
    assert_eq!(run("(1 < 2) < false"), fault(EvalError::LtBoolL));
}

#[test]
fn a_truth_value_on_the_right_is_reported_before_a_fault_on_the_left() {
    assert_eq!(run("1 + true"), fault(EvalError::PlusBoolR));
    assert_eq!(run("(1 + true) + true"), fault(EvalError::PlusBoolR));
    assert_eq!(run("1 - false"), fault(EvalError::MinusBoolR));
    assert_eq!(run("-true - false"), fault(EvalError::MinusBoolR));
    assert_eq!(run("1 * true"), fault(EvalError::TimesBoolR));
    assert_eq!(run("x * true"), fault(EvalError::TimesBoolR));
    assert_eq!(run("1 < true"), fault(EvalError::LtBoolR));
    assert_eq!(run("(if 1 then 2 else 3) < (1 < 2)"), fault(EvalError::LtBoolR));
}

#[test]
fn a_fault_on_the_left_is_reported_before_a_fault_on_the_right() {
    assert_eq!(run("(1 + true) + 1"), fault(EvalError::PlusErrorL));
    assert_eq!(run("(1 + true) + (true + 1)"), fault(EvalError::PlusErrorL));
    assert_eq!(run("(1 + true) - 1"), fault(EvalError::MinusErrorL));
    assert_eq!(run("-true - -true"), fault(EvalError::MinusErrorL));
    assert_eq!(run("(1 + true) * 1"), fault(EvalError::TimesErrorL));
    assert_eq!(run("x * y"), fault(EvalError::TimesErrorL));
    assert_eq!(run("(1 + true) < 1"), fault(EvalError::LtErrorL));
    assert_eq!(run("(1 < true) < (true < 1)"), fault(EvalError::LtErrorL));
}

#[test]
fn a_fault_on_the_right_is_reported_last() {
    assert_eq!(run("1 + (1 + true)"), fault(EvalError::PlusErrorR));
    assert_eq!(run("1 - (1 + true)"), fault(EvalError::MinusErrorR));
    assert_eq!(run("1 * (1 + true)"), fault(EvalError::TimesErrorR));
    assert_eq!(run("1 < (1 + true)"), fault(EvalError::LtErrorR));
    assert_eq!(run("1 + x"), fault(EvalError::PlusErrorR));
}

#[test]
fn results_combine_without_expressions() {
    let three = value(3);
    let four = value(4);
    let yes = verdict(true);
    let bad = fault(EvalError::IfInt);
    assert_eq!(three + four, value(7));
    assert_eq!(three - four, value(-1));
    assert_eq!(three * four, value(12));
    assert_eq!(three.less_than(four), verdict(true));
    assert_eq!(-three, value(-3));
    assert_eq!(-yes, fault(EvalError::UnaryMinusBool));
    assert_eq!(-bad, bad);
    assert_eq!(yes + bad, fault(EvalError::PlusBoolL));
    assert_eq!(bad + yes, fault(EvalError::PlusBoolR));
    assert_eq!(bad + bad, fault(EvalError::PlusErrorL));
    assert_eq!(three + bad, fault(EvalError::PlusErrorR));
    assert_eq!(yes - three, fault(EvalError::MinusBoolL));
    assert_eq!(bad - yes, fault(EvalError::MinusBoolR));
    assert_eq!(bad - three, fault(EvalError::MinusErrorL));
    assert_eq!(three - bad, fault(EvalError::MinusErrorR));
    assert_eq!(yes * three, fault(EvalError::TimesBoolL));
    assert_eq!(three * yes, fault(EvalError::TimesBoolR));
    assert_eq!(bad * three, fault(EvalError::TimesErrorL));
    assert_eq!(three * bad, fault(EvalError::TimesErrorR));
    assert_eq!(yes.less_than(three), fault(EvalError::LtBoolL));
    assert_eq!(three.less_than(yes), fault(EvalError::LtBoolR));
    assert_eq!(bad.less_than(three), fault(EvalError::LtErrorL));
    assert_eq!(three.less_than(bad), fault(EvalError::LtErrorR));
}

#[test]
fn a_conditional_selects_a_branch() {
    assert_eq!(run("if 1 < 2 then 10 else 20"), value(10));
    assert_eq!(run("if 2 < 1 then 10 else 20"), value(20));
    assert_eq!(run("if true then false else 1"), verdict(false));
}

#[test]
fn the_branch_not_selected_is_not_evaluated() {
    assert_eq!(run("if true then 1 else 1 + true"), value(1));
    assert_eq!(run("if false then -true else 2"), value(2));
    assert_eq!(run("if true then 1 else x"), value(1));
}

#[test]
fn an_integer_condition_is_a_fault() {
    assert_eq!(run("if 1 then 2 else 3"), fault(EvalError::IfInt));
    assert_eq!(run("if 1 + 1 then true + 1 else x"), fault(EvalError::IfInt));
}

#[test]
fn a_fault_of_the_condition_is_passed_on() {
    assert_eq!(run("if 1 + true then 2 else 3"), fault(EvalError::PlusBoolR));
    assert_eq!(run("if -true then 2 else 3"), fault(EvalError::UnaryMinusBool));
    assert_eq!(run("if x then 2 else 3"), fault(EvalError::VarNotFound));
    assert_eq!(
        run("if (if 1 then true else false) then 2 else 3"),
        fault(EvalError::IfInt)
    );
}

#[test]
fn a_fault_of_the_then_branch_is_wrapped() {
    assert_eq!(run("if true then 1 + true else 3"), fault(EvalError::IfTError));
    assert_eq!(run("if true then x else 3"), fault(EvalError::IfTError));
}

#[test]
fn a_fault_of_the_else_branch_is_wrapped_as_the_then_branch_is() {
    assert_eq!(run("if false then 1 else 1 + true"), fault(EvalError::IfTError));
    assert_eq!(run("if 2 < 1 then 1 else -true"), fault(EvalError::IfTError));
}

#[test]
fn an_unbound_name_is_a_fault() {
    assert_eq!(eval(&empty(), &var("x")), fault(EvalError::VarNotFound));
    let env = Env(vec![EnvVar("y".to_string(), num(1))]);
    assert_eq!(eval(&env, &var("x")), fault(EvalError::VarNotFound));
}

#[test]
fn the_binding_in_front_shadows_the_others() {
    let env = Env(vec![
        EnvVar("x".to_string(), num(2)),
        EnvVar("x".to_string(), num(1)),
    ]);
    assert_eq!(eval(&env, &var("x")), value(2));
    assert_eq!(find(&env, &"x".to_string()), Some(&num(2)));
}

#[test]
fn a_name_is_found_behind_other_bindings() {
    let env = Env(vec![
        EnvVar("z".to_string(), truth(true)),
        EnvVar("y".to_string(), num(2)),
        EnvVar("x".to_string(), num(1)),
    ]);
    assert_eq!(eval(&env, &var("x")), value(1));
    assert_eq!(eval(&env, &var("y")), value(2));
    assert_eq!(eval(&env, &var("z")), verdict(true));
    assert_eq!(find(&env, &"x".to_string()), Some(&num(1)));
    assert_eq!(find(&env, &"w".to_string()), None);
    assert_eq!(find(&empty(), &"x".to_string()), None);
}

#[test]
fn an_environment_written_in_front_is_evaluated_in() {
    assert_eq!(run("x = 10, y = true if y then x + 1 else x - 1"), value(11));
    assert_eq!(run("x = 1, x = 2 x"), value(2));
}

#[test]
fn a_let_binds_its_value_for_the_body() {
    assert_eq!(run("let x = 1 in x + 2"), value(3));
    assert_eq!(run("let x = 1 < 2 in if x then 1 else 2"), value(1));
}

#[test]
fn an_inner_let_sees_the_outer_binding_and_then_shadows_it() {
    assert_eq!(run("let x = 1 in let x = x + 1 in x"), value(2));
    assert_eq!(run("let x = 1 in (let x = 5 in x) + x"), value(6));
    assert_eq!(run("x = 7 let y = x in let x = 1 in x + y"), value(8));
}

#[test]
fn a_let_binding_ends_with_the_let() {
    assert_eq!(run("(let x = 1 in x) + x"), fault(EvalError::PlusErrorR));
}

#[test]
fn a_fault_of_the_bound_expression_is_wrapped() {
    assert_eq!(run("let x = 1 + true in 2"), fault(EvalError::LetError1));
    assert_eq!(run("let x = y in 2"), fault(EvalError::LetError1));
    assert_eq!(run("let x = x in x"), fault(EvalError::LetError1));
}

#[test]
fn a_fault_of_the_body_is_wrapped() {
    assert_eq!(run("let x = 1 in x + true"), fault(EvalError::LetError2));
    assert_eq!(run("let x = 1 in y"), fault(EvalError::LetError2));
    assert_eq!(run("let x = true in -x"), fault(EvalError::LetError2));
}

#[test]
fn every_expression_has_one_result() {
    let texts = [
        "1",
        "true",
        "-1",
        "-true",
        "1 + 2",
        "1 + true",
        "x",
        "if 1 then 2 else 3",
        "if true then x else 3",
        "let x = 1 in x",
        "let x = y in x",
        "let x = 1 in y",
    ];
    for text in texts {
        let result = run(text);
        let is_value = matches!(result, EvalResult::Value(_));
        let is_fault = matches!(result, EvalResult::Error(_));
        assert!(is_value != is_fault);
        assert_eq!(run(text), result);
    }
}

#[test]
fn faults_name_their_rules() {
    let names = [
        (EvalError::IfInt, "E-IfInt"),
        (EvalError::PlusBoolL, "E-PlusBoolL"),
        (EvalError::PlusBoolR, "E-PlusBoolR"),
        (EvalError::MinusBoolL, "E-MinusBoolL"),
        (EvalError::MinusBoolR, "E-MinusBoolR"),
        (EvalError::TimesBoolL, "E-TimesBoolL"),
        (EvalError::TimesBoolR, "E-TimesBoolR"),
        (EvalError::LtBoolL, "E-LtBoolL"),
        (EvalError::LtBoolR, "E-LtBoolR"),
        (EvalError::IfError, "E-IfError"),
        (EvalError::IfTError, "E-IfTError"),
        (EvalError::IfFError, "E-IfFError"),
        (EvalError::PlusErrorL, "E-PlusErrorL"),
        (EvalError::PlusErrorR, "E-PlusErrorR"),
        (EvalError::MinusErrorL, "E-MinusErrorL"),
        (EvalError::MinusErrorR, "E-MinusErrorR"),
        (EvalError::TimesErrorL, "E-TimesErrorL"),
        (EvalError::TimesErrorR, "E-TimesErrorR"),
        (EvalError::LtErrorL, "E-LtErrorL"),
        (EvalError::LtErrorR, "E-LtErrorR"),
        (EvalError::UnaryMinusBool, "E-UnaryMinusBool"),
        (EvalError::LetError1, "E-LetError1"),
        (EvalError::LetError2, "E-LetError2"),
        (EvalError::VarNotFound, "E-VarNotFound"),
    ];
    for (fault, name) in names {
        assert_eq!(fault.rule_name(), name);
    }
}

#[test]
fn results_as_text() {
    assert_eq!(value(12).to_text(), "12");
    assert_eq!(value(-12).to_text(), "-12");
    assert_eq!(verdict(true).to_text(), "true");
    assert_eq!(verdict(false).to_text(), "false");
    assert_eq!(fault(EvalError::IfInt).to_text(), "error");
    assert_eq!(fault(EvalError::VarNotFound).to_text(), "error");
    let mut buf = String::from("= ");
    value(7).write_to(&mut buf);
    assert_eq!(buf, "= 7");
}

fn written(text: &str) -> Env {
    parse_env(&tokenize(text.as_bytes()).unwrap()).unwrap()
}

#[test]
fn settling_evaluates_each_binding() {
    assert_eq!(settle(&written("x = 1 + 2")), Ok(written("x = 3")));
    assert_eq!(
        settle(&written("x = -3")),
        Ok(Env(vec![EnvVar("x".to_string(), num(-3))]))
    );
    assert_eq!(settle(&written("b = 1 < 2")), Ok(written("b = true")));
    assert_eq!(settle(&written("")), Ok(Env(vec![])));
}

#[test]
fn a_binding_sees_the_older_ones() {
    assert_eq!(
        settle(&written("x = 1, y = x + 1, z = x + y * 2")),
        Ok(written("x = 1, y = 2, z = 5"))
    );
    assert_eq!(
        settle(&written("x = 1, x = x + 1, x = x * 5")),
        Ok(written("x = 1, x = 2, x = 10"))
    );
}

#[test]
fn a_binding_does_not_see_itself_nor_the_later_ones() {
    assert_eq!(settle(&written("x = x")), Err(EvalError::VarNotFound));
    assert_eq!(settle(&written("x = y + 1, y = 1")), Err(EvalError::PlusErrorL));
}

#[test]
fn an_environment_of_values_settles_to_itself() {
    let env = written("x = 10, y = true, x = 3");
    assert!(env.is_well_formed());
    assert_eq!(settle(&env), Ok(written("x = 10, y = true, x = 3")));
}

#[test]
fn a_settled_environment_is_well_formed() {
    let env = written("x = 1 + 2, y = -x, z = if x < y then 1 else 2");
    assert!(!env.is_well_formed());
    let values = settle(&env).unwrap();
    assert!(values.is_well_formed());
    assert_eq!(
        values,
        Env(vec![
            EnvVar("z".to_string(), num(2)),
            EnvVar("y".to_string(), num(-3)),
            EnvVar("x".to_string(), num(3)),
        ])
    );
    assert_eq!(eval(&values, &var("y")), value(-3));
}

#[test]
fn the_fault_of_the_oldest_faulty_binding_is_returned() {
    assert_eq!(settle(&written("x = 1 + true")), Err(EvalError::PlusBoolR));
    assert_eq!(
        settle(&written("x = -true, y = 1 + true")),
        Err(EvalError::UnaryMinusBool)
    );
    assert_eq!(
        settle(&written("x = 1, y = if x then 1 else 2, z = w")),
        Err(EvalError::IfInt)
    );
}
