use nexus::environment::Environment;

#[test]
fn inner_scopes_see_and_shadow_outer_bindings() {
    let mut env: Environment<i64> = Environment::new(0);
    env.define("x".to_string(), 1);
    let mut inner = Environment::with_parent(env);
    assert_eq!(inner.get("x"), Some(&1));
    inner.define("x".to_string(), 2);
    assert_eq!(inner.get("x"), Some(&2));
    let outer = inner.into_parent();
    assert_eq!(outer.get("x"), Some(&1));
    assert_eq!(outer.get("y"), None);
}

#[test]
fn define_replaces_a_binding_in_the_same_scope() {
    let mut env: Environment<i64> = Environment::new(0);
    env.define("x".to_string(), 1);
    env.define("x".to_string(), 5);
    assert_eq!(env.get("x"), Some(&5));
}

#[test]
fn assign_changes_the_innermost_binding() {
    let mut env: Environment<i64> = Environment::new(0);
    env.define("x".to_string(), 1);
    let mut inner = Environment::with_parent(env);
    assert_eq!(inner.assign("x", 7), Ok(()));
    assert_eq!(inner.get("x"), Some(&7));
    // The change is made in the outer scope, where `x` lives.
    let outer = inner.into_parent();
    assert_eq!(outer.get("x"), Some(&7));
}

#[test]
fn assign_to_an_unbound_name_fails() {
    let mut env: Environment<i64> = Environment::new(0);
    assert_eq!(env.assign("z", 3), Err("Undefined variable 'z'. Cannot assign.".to_string()));
    assert_eq!(env.get("z"), None);
}

#[test]
fn the_outermost_scope_has_no_parent() {
    let mut env: Environment<i64> = Environment::new(0);
    env.define("x".to_string(), 4);
    let same = env.into_parent();
    assert_eq!(same.get("x"), Some(&4));
}

#[test]
fn the_global_scope_binds_print() {
    let env: Environment<i64> = Environment::new(99);
    assert_eq!(env.get("print"), Some(&99));
    assert_eq!(env.get("x"), None);
    let inner = Environment::with_parent(env);
    assert_eq!(inner.get("print"), Some(&99));
}
