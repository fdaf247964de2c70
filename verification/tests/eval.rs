use un_lang::eval::{eval_step, EvalAction, EvalError, EvalState, Shape};
use un_lang::expr::Expr;
use un_lang::interpreter::{load_line, Interpreter};
use un_lang::stmt::Stmt;
use un_lang::types::Types;

/// The expression of a declaration or an expression statement.
fn expr(line: &str) -> Expr {
    let stmts = match load_line(line.to_string()) {
        Ok(p) if !p.has_err() => p.into_stmt(),
        other => panic!("expected statements, got {:?}", other),
    };
    match stmts.into_iter().next() {
        Some(Stmt::Expr(e)) => e,
        Some(Stmt::Var { expr, .. }) => *expr,
        other => panic!("expected an expression, got {:?}", other),
    }
}

fn number(truthy: bool) -> Shape {
    Shape { truthy, ty: Some(Types::Number), arity: None }
}

fn string() -> Shape {
    Shape { truthy: true, ty: Some(Types::String), arity: None }
}

fn function(arity: usize) -> Shape {
    Shape { truthy: true, ty: None, arity: Some((arity, false)) }
}

/// Evaluates `line`'s expression in scope 0 of `it`, answering each request
/// with the next of `answers`; records each request.
fn drive(it: &mut Interpreter<i64>, line: &str, answers: &[(i64, Shape)]) -> (Vec<String>, Result<i64, EvalError>) {
    let (mut st, mut action) = EvalState::begin(0, expr(line));
    let mut asked = Vec::new();
    let mut given = answers.iter();
    loop {
        let request = match &action {
            EvalAction::Literal(t) => format!("literal {}", t.token_type.describe()),
            EvalAction::Read(env, n) => format!("read {}@{}", n, env),
            EvalAction::Binary(op, l, r) => format!("{} {} {}", l, op.token_type.describe(), r),
            EvalAction::Negate(v) => format!("negate {}", v),
            EvalAction::Bool(b) => format!("bool {}", b),
            EvalAction::Call(f, args) => format!("call {} {:?}", f, args),
            EvalAction::Lambda(env, ps, _) => format!("lambda {}@{}", ps.len(), env),
            EvalAction::Done(v) => return (asked, Ok(*v)),
            EvalAction::Fail(e) => return (asked, Err(*e)),
        };
        asked.push(request);
        let (v, s) = *given.next().expect("more requests than answers");
        action = eval_step(it, &mut st, v, s);
    }
}

#[test]
fn or_with_a_true_left_operand_never_evaluates_the_right() {
    let mut it: Interpreter<i64> = Interpreter::new();
    let (asked, r) = drive(&mut it, "a or b;", &[(7, number(true))]);
    assert_eq!(asked, vec!["read a@0"]);
    assert_eq!(r, Ok(7));
}

#[test]
fn or_with_a_false_left_operand_gives_the_right() {
    let mut it: Interpreter<i64> = Interpreter::new();
    let (asked, r) = drive(&mut it, "a or b;", &[(0, number(false)), (9, number(true))]);
    assert_eq!(asked, vec!["read a@0", "read b@0"]);
    assert_eq!(r, Ok(9));
}

#[test]
fn and_with_a_false_left_operand_never_evaluates_the_right() {
    let mut it: Interpreter<i64> = Interpreter::new();
    let (asked, r) = drive(&mut it, "a and b;", &[(0, number(false))]);
    assert_eq!(asked, vec!["read a@0"]);
    assert_eq!(r, Ok(0));
}

#[test]
fn and_with_a_true_left_operand_gives_the_right() {
    let mut it: Interpreter<i64> = Interpreter::new();
    let (asked, r) = drive(&mut it, "a and b;", &[(3, number(true)), (0, number(false))]);
    assert_eq!(asked, vec!["read a@0", "read b@0"]);
    assert_eq!(r, Ok(0));
}

#[test]
fn a_conditional_evaluates_only_the_branch_it_picks() {
    let mut it: Interpreter<i64> = Interpreter::new();
    let (asked, r) = drive(&mut it, "let m := if c then x else y end;", &[(0, number(false)), (5, number(true))]);
    assert_eq!(asked, vec!["read c@0", "read y@0"]);
    assert_eq!(r, Ok(5));
    let (asked, r) = drive(&mut it, "let m := if c then x else y end;", &[(1, number(true)), (4, number(true))]);
    assert_eq!(asked, vec!["read c@0", "read x@0"]);
    assert_eq!(r, Ok(4));
}

#[test]
fn an_assignment_stores_then_reads_the_variable_back() {
    let mut it: Interpreter<i64> = Interpreter::new();
    it.env.define_var(0, "x", 1);
    let (asked, r) = drive(&mut it, "x = 5 ;", &[(5, number(true)), (5, number(true))]);
    assert_eq!(asked, vec!["literal 5", "read x@0"]);
    assert_eq!(r, Ok(5));
    assert_eq!(it.look_up_var(0, "x"), Some(&5));
}

#[test]
fn an_assignment_to_an_undefined_variable_stops() {
    let mut it: Interpreter<i64> = Interpreter::new();
    let (asked, r) = drive(&mut it, "x = 5 ;", &[(5, number(true))]);
    assert_eq!(asked, vec!["literal 5"]);
    assert_eq!(r, Err(EvalError::UndefinedVariable));
    assert_eq!(it.look_up_var(0, "x"), None);
}

#[test]
fn arithmetic_evaluates_left_then_right_then_asks_the_host() {
    let mut it: Interpreter<i64> = Interpreter::new();
    let (asked, r) = drive(&mut it, "a - b;", &[(8, number(true)), (3, number(true)), (5, number(true))]);
    assert_eq!(asked, vec!["read a@0", "read b@0", "8 - 3"]);
    assert_eq!(r, Ok(5));
}

#[test]
fn adding_a_number_and_a_string_stops() {
    let mut it: Interpreter<i64> = Interpreter::new();
    let (_, r) = drive(&mut it, "a + b;", &[(1, number(true)), (2, string())]);
    assert_eq!(r, Err(EvalError::InvalidAddition));
    let (asked, r) = drive(&mut it, "a + b;", &[(1, string()), (2, string()), (12, string())]);
    assert_eq!(asked, vec!["read a@0", "read b@0", "1 + 2"]);
    assert_eq!(r, Ok(12));
}

#[test]
fn ordering_values_of_different_types_stops() {
    let mut it: Interpreter<i64> = Interpreter::new();
    let (_, r) = drive(&mut it, "a < b;", &[(1, number(true)), (2, string())]);
    assert_eq!(r, Err(EvalError::DifferentTypes));
}

#[test]
fn values_of_different_types_are_unequal() {
    let mut it: Interpreter<i64> = Interpreter::new();
    let (asked, r) = drive(&mut it, "a == b;", &[(1, number(true)), (2, string()), (0, number(false))]);
    assert_eq!(asked, vec!["read a@0", "read b@0", "bool false"]);
    assert_eq!(r, Ok(0));
    let (asked, _) = drive(&mut it, "a != b;", &[(1, number(true)), (2, string()), (1, number(true))]);
    assert_eq!(asked, vec!["read a@0", "read b@0", "bool true"]);
}

#[test]
fn not_asks_for_the_opposite_boolean_and_negation_wants_a_number() {
    let mut it: Interpreter<i64> = Interpreter::new();
    let (asked, _) = drive(&mut it, "not a;", &[(0, number(false)), (1, number(true))]);
    assert_eq!(asked, vec!["read a@0", "bool true"]);
    let (asked, _) = drive(&mut it, "-a;", &[(4, number(true)), (-4, number(true))]);
    assert_eq!(asked, vec!["read a@0", "negate 4"]);
    let (_, r) = drive(&mut it, "-a;", &[(4, string())]);
    assert_eq!(r, Err(EvalError::InvalidNegation));
}

#[test]
fn a_call_evaluates_the_function_then_the_arguments_in_order() {
    let mut it: Interpreter<i64> = Interpreter::new();
    let (asked, r) = drive(
        &mut it,
        "f(a, b);",
        &[(100, function(2)), (1, number(true)), (2, number(true)), (42, number(true))],
    );
    assert_eq!(asked, vec!["read f@0", "read a@0", "read b@0", "call 100 [1, 2]"]);
    assert_eq!(r, Ok(42));
}

#[test]
fn a_call_with_the_wrong_number_of_arguments_stops() {
    let mut it: Interpreter<i64> = Interpreter::new();
    let (_, r) = drive(&mut it, "f(a, b);", &[(100, function(1)), (1, number(true)), (2, number(true))]);
    assert_eq!(r, Err(EvalError::WrongArity));
    let (_, r) = drive(&mut it, "f();", &[(100, number(true))]);
    assert_eq!(r, Err(EvalError::NotCallable));
}

#[test]
fn a_lambda_is_made_by_the_host() {
    let mut it: Interpreter<i64> = Interpreter::new();
    let (asked, r) = drive(&mut it, "let g := fn (n) n + 1 ;", &[(77, function(1))]);
    assert_eq!(asked, vec!["lambda 1@0"]);
    assert_eq!(r, Ok(77));
}
