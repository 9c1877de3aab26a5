use lox::env::{Env, Scope};

fn s(text: &str) -> String {
    text.to_string()
}

#[test]
fn lookup_after_define() {
    let mut env: Env<i32> = Env::new();
    assert_eq!(env.define(s("a"), 1), None);
    assert_eq!(env.lookup(&s("a")), Some(&1));
    assert_eq!(env.define(s("a"), 2), Some(1));
    assert_eq!(env.lookup(&s("a")), Some(&2));
    assert_eq!(env.lookup(&s("b")), None);
    env.define(s("b"), 9);
    assert_eq!(env.lookup(&s("a")), Some(&2));
}

#[test]
fn inner_scope_shadows_and_vanishes() {
    let mut env: Env<i32> = Env::new();
    env.define(s("x"), 1);
    env.start_scope();
    assert_eq!(env.depth(), 1);
    env.define(s("x"), 2);
    env.define(s("y"), 3);
    assert_eq!(env.lookup(&s("x")), Some(&2));
    env.end_scope();
    assert_eq!(env.depth(), 0);
    assert_eq!(env.lookup(&s("x")), Some(&1));
    assert_eq!(env.lookup(&s("y")), None);
    assert!(!env.contains(&s("y")));
}

#[test]
fn assign_changes_innermost_binding() {
    let mut env: Env<i32> = Env::new();
    env.define(s("x"), 1);
    env.start_scope();
    env.start_scope();
    env.define(s("x"), 5);
    env.end_scope();
    assert!(env.assign(&s("x"), 7));
    assert_eq!(env.lookup(&s("x")), Some(&7));
    env.end_scope();
    assert_eq!(env.lookup(&s("x")), Some(&7));
    assert!(!env.assign(&s("nope"), 1));
    assert_eq!(env.lookup(&s("nope")), None);
}

#[test]
fn assign_prefers_inner_scope() {
    let mut env: Env<i32> = Env::new();
    env.define(s("x"), 1);
    env.start_scope();
    env.define(s("x"), 2);
    assert!(env.assign(&s("x"), 3));
    env.end_scope();
    assert_eq!(env.lookup(&s("x")), Some(&1));
}

#[test]
fn end_scope_without_scope_changes_nothing() {
    let mut env: Env<i32> = Env::new();
    env.define(s("g"), 4);
    env.end_scope();
    assert_eq!(env.lookup(&s("g")), Some(&4));
}

#[test]
fn swapping_scopes_runs_in_saved_scopes() {
    let mut env: Env<i32> = Env::new();
    env.define(s("g"), 0);
    env.start_scope();
    env.define(s("local"), 1);
    let mut saved = env.scopes().clone();
    env.end_scope();
    assert_eq!(env.lookup(&s("local")), None);
    env.swap_scopes(&mut saved);
    assert_eq!(env.lookup(&s("local")), Some(&1));
    assert_eq!(env.lookup(&s("g")), Some(&0));
    env.swap_scopes(&mut saved);
    assert_eq!(env.lookup(&s("local")), None);
}

#[test]
fn scope_upsert_and_lookup() {
    let mut scope: Scope<&str> = Scope::new();
    assert_eq!(scope.upsert(s("k"), "v"), None);
    assert!(scope.contains(&s("k")));
    assert_eq!(scope.lookup(&s("k")), Some(&"v"));
    assert_eq!(scope.upsert(s("k"), "w"), Some("v"));
    assert_eq!(scope.lookup(&s("k")), Some(&"w"));
}
