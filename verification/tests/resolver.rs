use un_lang::interpreter::significant_tokens;
use un_lang::parser::Parser;
use un_lang::resolver::{ResolveError, Resolver};
use un_lang::scanner::Scanner;
use un_lang::stmt::Stmt;

fn parse(lines: &[&str]) -> Vec<Stmt> {
    let scanned = Scanner::scan_lines(lines.iter().map(|l| l.to_string()).collect());
    assert!(!scanned.has_err());
    let parsed = Parser::parse_tokens(significant_tokens(&scanned.into_tokens(), true));
    assert!(!parsed.has_err());
    parsed.into_stmt()
}

fn resolve(lines: &[&str]) -> (Result<(), ResolveError>, Resolver) {
    let stmts = parse(lines);
    let mut r = Resolver::new();
    let res = r.resolve_stmts(&stmts);
    (res, r)
}

#[test]
fn a_local_read_two_blocks_in_is_at_depth_one() {
    let (res, r) = resolve(&["begin let x := 1; begin print(x); end; end;"]);
    assert_eq!(res, Ok(()));
    let locals = r.into_locals();
    assert_eq!(locals.get("x"), Some(&1));
}

#[test]
fn function_parameters_are_at_depth_zero_in_the_body() {
    let (res, r) = resolve(&["fun add(a, b)", "return a + b;", "end"]);
    assert_eq!(res, Ok(()));
    let locals = r.into_locals();
    assert_eq!(locals.get("a"), Some(&0));
    assert_eq!(locals.get("b"), Some(&0));
    assert_eq!(locals.get("add"), None);
}

#[test]
fn globals_get_no_depth() {
    let (res, r) = resolve(&["let g := 1;", "print(g);"]);
    assert_eq!(res, Ok(()));
    assert_eq!(r.into_locals().get("g"), None);
}

#[test]
fn lambda_parameters_are_at_depth_zero_in_the_body() {
    let (res, r) = resolve(&["let f := fn (a) a;"]);
    assert_eq!(res, Ok(()));
    assert_eq!(r.into_locals().get("a"), Some(&0));
}

#[test]
fn a_second_declaration_in_one_scope_is_refused() {
    let (res, _) = resolve(&["begin let a := 1; let a := 2; end;"]);
    assert_eq!(res, Err(ResolveError::AlreadyDeclared));
}

#[test]
fn a_read_in_its_own_initializer_is_refused() {
    let (res, _) = resolve(&["begin let a := a; end;"]);
    assert_eq!(res, Err(ResolveError::ReadInOwnInitializer));
}

#[test]
fn a_return_outside_a_function_is_refused() {
    let (res, _) = resolve(&["return 1;"]);
    assert_eq!(res, Err(ResolveError::ReturnOutsideFunction));
}

#[test]
fn the_loop_variable_of_a_for_is_local_to_it() {
    let (res, r) = resolve(&["for i in [ 0 .. < 3 ] do print(i); end"]);
    assert_eq!(res, Ok(()));
    assert_eq!(r.into_locals().get("i"), Some(&0));
}

#[test]
fn a_for_loop_resolves_as_its_block() {
    let stmts = parse(&["begin let n := 5; for i in [ 0 .. < n; 2 ] do print(i + n); end end;"]);
    let mut direct = Resolver::new();
    assert_eq!(direct.resolve_stmts(&stmts), Ok(()));
    let inner_for = match &stmts[0] {
        Stmt::Block(b) => b[1].desugar_for().expect("a for loop"),
        other => panic!("expected a block, got {:?}", other),
    };
    let desugared = vec![match &stmts[0] {
        Stmt::Block(b) => Stmt::Block(vec![b[0].duplicate(), inner_for]),
        _ => unreachable!(),
    }];
    let mut via_block = Resolver::new();
    assert_eq!(via_block.resolve_stmts(&desugared), Ok(()));
    let a = direct.into_locals();
    let b = via_block.into_locals();
    assert_eq!(a.get("i"), Some(&0));
    assert_eq!(a.get("n"), Some(&1));
    assert_eq!(a.get("i"), b.get("i"));
    assert_eq!(a.get("n"), b.get("n"));
}

#[test]
fn resolving_closes_every_scope_it_opens() {
    let (res, mut r) = resolve(&["begin let x := 1; end;", "fun f(y) return y; end"]);
    assert_eq!(res, Ok(()));
    // With no scope left open, `z` resolves to nothing.
    r.resolve_local("z");
    assert_eq!(r.declare("z"), Ok(()));
    r.resolve_local("z");
    let locals = r.into_locals();
    assert_eq!(locals.get("z"), None);
    assert_eq!(locals.get("y"), Some(&0));
}

#[test]
fn end_scope_undoes_begin_scope() {
    let mut r = Resolver::default();
    r.begin_scope();
    r.end_scope();
    assert_eq!(r.declare("x"), Ok(()));
    assert_eq!(r.declare("x"), Ok(()));
    r.resolve_local("x");
    assert_eq!(r.into_locals().get("x"), None);
}

#[test]
fn resolve_local_records_the_innermost_depth() {
    let mut r = Resolver::new();
    r.begin_scope();
    assert_eq!(r.declare("x"), Ok(()));
    r.define("x");
    r.begin_scope();
    r.begin_scope();
    r.resolve_local("x");
    let mut r2 = r;
    assert_eq!(r2.declare("x"), Ok(()));
    assert_eq!(r2.declare("x"), Err(ResolveError::AlreadyDeclared));
    r2.define("x");
    r2.end_scope();
    r2.resolve_local("x");
    let locals = r2.into_locals();
    assert_eq!(locals.get("x"), Some(&1));
}

#[test]
fn resolve_local_two_scopes_out() {
    let mut r = Resolver::new();
    r.begin_scope();
    assert_eq!(r.declare("x"), Ok(()));
    r.begin_scope();
    r.begin_scope();
    r.resolve_local("x");
    assert_eq!(r.into_locals().get("x"), Some(&2));
}

#[test]
fn resolve_error_messages() {
    assert_eq!(
        ResolveError::AlreadyDeclared.message(),
        "A variable with this identifier already exists in this scope"
    );
    assert_eq!(
        ResolveError::ReadInOwnInitializer.message(),
        "Can't read local variable before it's own initializer."
    );
    assert_eq!(ResolveError::ReturnOutsideFunction.message(), "Return outside of function");
}
