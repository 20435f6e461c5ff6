use brod::interpreter::environment::Environment;

#[test]
fn added_variable_is_found() {
    let mut env: Environment<i64> = Environment::new();
    env.add("x".to_string(), 3);
    assert_eq!(env.get("x"), Some(&3));
    assert_eq!(env.get("y"), None);
}

#[test]
fn inner_scope_shadows_and_pop_restores() {
    let mut env: Environment<i64> = Environment::new();
    env.add("x".to_string(), 1);
    env.push();
    env.add("x".to_string(), 2);
    assert_eq!(env.get("x"), Some(&2));
    env.pop();
    assert_eq!(env.get("x"), Some(&1));
}

#[test]
fn assign_changes_the_innermost_binding() {
    let mut env: Environment<i64> = Environment::new();
    env.add("x".to_string(), 1);
    env.push();
    assert!(env.assign("x", 5));
    assert_eq!(env.get("x"), Some(&5));
    env.pop();
    assert_eq!(env.get("x"), Some(&5));
    assert!(!env.assign("missing", 0));
    assert_eq!(env.get("missing"), None);
}

#[test]
fn re_adding_replaces_the_value() {
    let mut env: Environment<String> = Environment::new();
    env.add("s".to_string(), "a".to_string());
    env.add("s".to_string(), "b".to_string());
    assert_eq!(env.get("s"), Some(&"b".to_string()));
}

#[test]
fn scope_count_follows_push_and_pop() {
    let mut env: Environment<i64> = Environment::new();
    assert_eq!(env.scope_count(), 1);
    env.push();
    env.push();
    assert_eq!(env.scope_count(), 3);
    env.pop();
    assert_eq!(env.scope_count(), 2);
}
