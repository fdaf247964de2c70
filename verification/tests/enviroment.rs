use un_lang::enviroment::Enviroment;

#[test]
fn a_defined_variable_reads_back() {
    let mut env: Enviroment<i64> = Enviroment::new();
    env.define_var(0, "x", 1);
    assert_eq!(env.get_var_val(0, "x"), Some(&1));
    env.define_var(0, "x", 2);
    assert_eq!(env.get_var_val(0, "x"), Some(&2));
    assert_eq!(env.get_var_val(0, "y"), None);
}

#[test]
fn a_nested_scope_sees_its_outer_scopes() {
    let mut env: Enviroment<i64> = Enviroment::new();
    env.define_var(0, "x", 1);
    let inner = env.with_outer(0);
    let innermost = env.with_outer(inner);
    assert_eq!(env.get_var_val(innermost, "x"), Some(&1));
    assert_eq!(env.outer(innermost), Some(inner));
    assert_eq!(env.outer(0), None);
    assert_eq!(env.len(), 3);
}

#[test]
fn defining_in_a_nested_scope_shadows_without_changing_the_outer_one() {
    let mut env: Enviroment<i64> = Enviroment::new();
    env.define_var(0, "x", 1);
    let inner = env.with_outer(0);
    env.define_var(inner, "x", 5);
    assert_eq!(env.get_var_val(inner, "x"), Some(&5));
    assert_eq!(env.get_var_val(0, "x"), Some(&1));
}

#[test]
fn an_update_changes_the_scope_that_defines_the_name() {
    let mut env: Enviroment<i64> = Enviroment::new();
    env.define_var(0, "x", 1);
    let inner = env.with_outer(0);
    assert_eq!(env.update_var(inner, "x", 9), Some(1));
    assert_eq!(env.get_var_val(0, "x"), Some(&9));
    assert_eq!(env.get_var_val(inner, "x"), Some(&9));
    assert_eq!(env.get_var_val_here(inner, "x"), None);
}

#[test]
fn ancestors_count_scopes_outward() {
    let mut env: Enviroment<&str> = Enviroment::new();
    let a = env.with_outer(0);
    let b = env.with_outer(a);
    assert_eq!(env.ancestor(b, 0), b);
    assert_eq!(env.ancestor(b, 1), a);
    assert_eq!(env.ancestor(b, 2), 0);
    assert!(env.has_ancestor(b, 2));
    assert!(!env.has_ancestor(b, 3));
    env.define_at(b, "v", "outer", 2);
    assert_eq!(*env.get_at(b, "v", 2), "outer");
    assert_eq!(env.get_var_val(0, "v"), Some(&"outer"));
}

#[test]
fn a_fresh_scope_can_be_nested_later() {
    let mut env: Enviroment<i64> = Enviroment::new();
    env.define_var(0, "g", 3);
    let f = env.fresh();
    assert_eq!(env.outer(f), None);
    assert_eq!(env.get_var_val(f, "g"), None);
    env.set_outer(f, 0);
    assert_eq!(env.outer(f), Some(0));
    assert_eq!(env.get_var_val(f, "g"), Some(&3));
}
