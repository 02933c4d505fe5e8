//! The scope environment observed from outside: shadowing, duplicates,
//! unbound identifiers.

use mir_lower::scope::ScopeEnv;

#[test]
fn shadowing_restores_outer_binding_on_exit() {
    let mut env = ScopeEnv::new();
    assert!(env.bind(vec![b'x'], 1).is_ok());
    env.enter_scope();
    assert!(env.bind(vec![b'x'], 2).is_ok());
    assert_eq!(env.resolve(&vec![b'x']), Some(2));
    env.exit_scope();
    assert_eq!(env.resolve(&vec![b'x']), Some(1));
}

#[test]
fn never_bound_identifier_stays_unresolved() {
    let mut env = ScopeEnv::new();
    assert_eq!(env.resolve(&vec![b'y']), None);
    env.enter_scope();
    assert!(env.bind(vec![b'x'], 7).is_ok());
    assert_eq!(env.resolve(&vec![b'y']), None);
    env.exit_scope();
    assert_eq!(env.resolve(&vec![b'y']), None);
}

#[test]
fn duplicate_binding_is_refused_and_original_kept() {
    let mut env = ScopeEnv::new();
    assert!(env.bind(vec![b'x'], 1).is_ok());
    assert_eq!(env.bind(vec![b'x'], 2), Err(1));
    assert_eq!(env.resolve(&vec![b'x']), Some(1));
}

#[test]
fn duplicate_check_ignores_outer_scopes() {
    let mut env = ScopeEnv::new();
    assert!(env.bind(vec![b'x'], 1).is_ok());
    env.enter_scope();
    // Shadowing is not a duplicate: the outer binding is in another scope.
    assert!(env.bind(vec![b'x'], 2).is_ok());
    assert_eq!(env.bind(vec![b'x'], 3), Err(2));
    env.exit_scope();
    assert_eq!(env.resolve(&vec![b'x']), Some(1));
}

#[test]
fn inner_scope_sees_outer_bindings() {
    let mut env = ScopeEnv::new();
    assert!(env.bind(vec![b'a'], 10).is_ok());
    env.enter_scope();
    env.enter_scope();
    assert_eq!(env.resolve(&vec![b'a']), Some(10));
    env.exit_scope();
    env.exit_scope();
    assert_eq!(env.resolve(&vec![b'a']), Some(10));
}

#[test]
fn bindings_of_a_closed_scope_are_gone() {
    let mut env = ScopeEnv::new();
    env.enter_scope();
    assert!(env.bind(vec![b't'], 3).is_ok());
    assert_eq!(env.resolve(&vec![b't']), Some(3));
    env.exit_scope();
    assert_eq!(env.resolve(&vec![b't']), None);
}
