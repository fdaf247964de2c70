use un_lang::exec::{call_end, exec_step, CallEnd, ExecAction, ExecEvent, ExecState};
use un_lang::interpreter::{load_line, Interpreter, Signal};
use un_lang::stmt::Stmt;

fn parse(line: &str) -> Vec<Stmt> {
    match load_line(line.to_string()) {
        Ok(p) if !p.has_err() => p.into_stmt(),
        other => panic!("expected statements, got {:?}", other),
    }
}

/// Runs `line` in the globals of `it`, handing back the values of `values`
/// in turn for each expression asked for; records each request as
/// `eval@scope`, `print@scope` or `fn@scope`.
fn drive(it: &mut Interpreter<i64>, line: &str, values: &[i64]) -> (Vec<String>, Signal<i64>) {
    let mut st = ExecState::new(parse(line), 0);
    let mut ev = ExecEvent::Start;
    let mut asked = Vec::new();
    let mut given = values.iter();
    loop {
        let action = exec_step(it, &mut st, ev);
        ev = match action {
            ExecAction::Next => ExecEvent::Start,
            ExecAction::Eval(env, _) | ExecAction::Print(env, _) | ExecAction::Function(env, _) => {
                let kind = match action {
                    ExecAction::Eval(..) => "eval",
                    ExecAction::Print(..) => "print",
                    _ => "fn",
                };
                asked.push(format!("{}@{}", kind, env));
                let v = *given.next().expect("more requests than values");
                ExecEvent::Evaluated(v, v != 0)
            },
            ExecAction::Done(sig) => return (asked, sig),
        };
    }
}

#[test]
fn a_declaration_in_a_block_stays_in_the_block() {
    let mut it: Interpreter<i64> = Interpreter::new();
    let (asked, sig) = drive(&mut it, "let a := 1; begin let a := 2; let b := 3; end;", &[1, 2, 3]);
    assert!(matches!(sig, Signal::Normal));
    assert_eq!(asked, vec!["eval@0", "eval@1", "eval@1"]);
    assert_eq!(it.look_up_var(0, "a"), Some(&1));
    assert_eq!(it.look_up_var(0, "b"), None);
    assert_eq!(it.env.get_var_val(1, "a"), Some(&2));
    assert_eq!(it.env.get_var_val(1, "b"), Some(&3));
    assert_eq!(it.env.outer(1), Some(0));
}

#[test]
fn a_while_loop_asks_for_its_condition_before_each_round() {
    let mut it: Interpreter<i64> = Interpreter::new();
    // condition true twice, then false; the body is one expression statement
    let (asked, sig) = drive(&mut it, "while i < 3 do i = i + 1; end", &[1, 7, 1, 8, 0]);
    assert!(matches!(sig, Signal::Normal));
    assert_eq!(asked, vec!["eval@0", "eval@0", "eval@0", "eval@0", "eval@0"]);
}

#[test]
fn a_while_loop_whose_condition_is_false_runs_no_round() {
    let mut it: Interpreter<i64> = Interpreter::new();
    let (asked, sig) = drive(&mut it, "while x do print(x); end print(y);", &[0, 5]);
    assert!(matches!(sig, Signal::Normal));
    assert_eq!(asked, vec!["eval@0", "print@0"]);
}

#[test]
fn break_leaves_the_innermost_loop_only() {
    let mut it: Interpreter<i64> = Interpreter::new();
    let (asked, sig) = drive(&mut it, "while a do while b do break; end print(c); end", &[1, 1, 9, 0]);
    assert!(matches!(sig, Signal::Normal));
    // outer condition, inner condition, the print after the inner loop, outer condition again
    assert_eq!(asked, vec!["eval@0", "eval@0", "print@0", "eval@0"]);
}

#[test]
fn break_inside_a_block_leaves_the_loop_around_it() {
    let mut it: Interpreter<i64> = Interpreter::new();
    let (asked, sig) = drive(&mut it, "while a do begin break; end; print(b); end print(c);", &[1, 4]);
    assert!(matches!(sig, Signal::Normal));
    assert_eq!(asked, vec!["eval@0", "print@0"]);
}

#[test]
fn break_outside_a_loop_ends_the_run_with_break() {
    let mut it: Interpreter<i64> = Interpreter::new();
    let (asked, sig) = drive(&mut it, "break; print(a);", &[]);
    assert!(asked.is_empty());
    assert!(matches!(sig, Signal::Break));
}

#[test]
fn return_ends_the_run_with_its_value() {
    let mut it: Interpreter<i64> = Interpreter::new();
    let (asked, sig) = drive(&mut it, "while a do return b; end print(c);", &[1, 42]);
    assert_eq!(asked, vec!["eval@0", "eval@0"]);
    assert!(matches!(sig, Signal::Return(42)));
}

#[test]
fn a_conditional_runs_the_branch_its_condition_picks() {
    let mut it: Interpreter<i64> = Interpreter::new();
    let (asked, _) = drive(&mut it, "if a then print(p); else let z := 2; end", &[0, 5]);
    assert_eq!(asked, vec!["eval@0", "eval@0"]);
    assert_eq!(it.look_up_var(0, "z"), Some(&5));
    let mut it2: Interpreter<i64> = Interpreter::new();
    let (asked2, _) = drive(&mut it2, "if a then print(p); else let z := 2; end", &[3, 5]);
    assert_eq!(asked2, vec!["eval@0", "print@0"]);
    assert_eq!(it2.look_up_var(0, "z"), None);
}

#[test]
fn a_conditional_without_else_does_nothing_when_false() {
    let mut it: Interpreter<i64> = Interpreter::new();
    let (asked, sig) = drive(&mut it, "if a then print(p); end", &[0]);
    assert_eq!(asked, vec!["eval@0"]);
    assert!(matches!(sig, Signal::Normal));
}

#[test]
fn a_function_declaration_defines_the_value_the_host_makes() {
    let mut it: Interpreter<i64> = Interpreter::new();
    let (asked, sig) = drive(&mut it, "fun f(a) return a; end", &[77]);
    assert_eq!(asked, vec!["fn@0"]);
    assert!(matches!(sig, Signal::Normal));
    assert_eq!(it.look_up_var(0, "f"), Some(&77));
}

#[test]
fn a_for_loop_runs_in_a_scope_of_its_own() {
    let mut it: Interpreter<i64> = Interpreter::new();
    // the loop variable's start, the condition (false), nothing more
    let (asked, sig) = drive(&mut it, "for i in [ 0 .. < 3 ] do print(i); end", &[0, 0]);
    assert!(matches!(sig, Signal::Normal));
    assert_eq!(asked, vec!["eval@1", "eval@1"]);
    assert_eq!(it.env.get_var_val(1, "i"), Some(&0));
    assert_eq!(it.look_up_var(0, "i"), None);
}

#[test]
fn an_empty_program_is_done_at_once() {
    let mut it: Interpreter<i64> = Interpreter::new();
    let (asked, sig) = drive(&mut it, "", &[]);
    assert!(asked.is_empty());
    assert!(matches!(sig, Signal::Normal));
}

#[test]
fn continue_in_a_while_loop_goes_to_the_condition() {
    let mut it: Interpreter<i64> = Interpreter::new();
    // condition true, `continue` skips the print, condition false
    let (asked, sig) = drive(&mut it, "while a do continue; print(b); end print(c);", &[1, 0, 6]);
    assert!(matches!(sig, Signal::Normal));
    assert_eq!(asked, vec!["eval@0", "eval@0", "print@0"]);
}

#[test]
fn continue_in_a_for_loop_still_takes_the_step() {
    let mut it: Interpreter<i64> = Interpreter::new();
    // start, condition (true), `continue` skips the print, the step, condition (false)
    let (asked, sig) = drive(&mut it, "for i in [ 0 .. < 3 ] do continue; print(i); end", &[0, 1, 5, 0]);
    assert!(matches!(sig, Signal::Normal));
    assert_eq!(asked, vec!["eval@1", "eval@1", "eval@1", "eval@1"]);
}

#[test]
fn continue_inside_a_block_goes_on_with_the_loop_around_it() {
    let mut it: Interpreter<i64> = Interpreter::new();
    let (asked, sig) = drive(&mut it, "while a do begin continue; print(b); end; print(c); end", &[1, 0]);
    assert!(matches!(sig, Signal::Normal));
    assert_eq!(asked, vec!["eval@0", "eval@0"]);
}

#[test]
fn continue_outside_a_loop_ends_the_run_with_continue() {
    let mut it: Interpreter<i64> = Interpreter::new();
    let (asked, sig) = drive(&mut it, "continue; print(a);", &[]);
    assert!(asked.is_empty());
    assert!(matches!(sig, Signal::Continue));
}

#[test]
fn a_call_ends_with_the_value_of_its_return() {
    assert!(matches!(call_end(Signal::Return(3)), CallEnd::Value(3)));
    assert!(matches!(call_end::<i64>(Signal::Normal), CallEnd::NoValue));
    assert!(matches!(call_end::<i64>(Signal::Break), CallEnd::StrayBreak));
    assert!(matches!(call_end::<i64>(Signal::Continue), CallEnd::StrayContinue));
}
