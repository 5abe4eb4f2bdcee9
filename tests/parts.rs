use typee::gc::{self, BlockError};
use typee::scope::{Binding, Scope, ScopeStack};

#[test]
fn block_alignment() {
    let block = gc::new(16, 64).unwrap();
    assert_eq!(block.size(), 16);
    assert_eq!(block.as_ptr() & (block.size() - 1), 0);
}

#[test]
fn block_size_must_be_power_of_two() {
    assert!(matches!(gc::new(12, 64), Err(BlockError::BadRequest)));
    assert!(matches!(gc::new(0, 64), Err(BlockError::BadRequest)));
    assert!(matches!(gc::new(12, 0), Err(BlockError::BadRequest)));
    assert!(gc::is_valid_size(1));
    assert!(gc::is_valid_size(4096));
    assert!(!gc::is_valid_size(6));
    assert!(!gc::is_valid_size(usize::MAX));
}

#[test]
fn failed_allocation_is_oom() {
    assert!(matches!(gc::new(8, 0), Err(BlockError::OOM)));
}

#[test]
fn scope_declare_conflicts_in_same_scope() {
    let mut stack = ScopeStack::new();
    assert!(stack.declare("x".to_string(), Binding::Parameter(0)).is_ok());
    assert!(stack.declare("x".to_string(), Binding::Parameter(1)).is_err());
    assert_eq!(stack.find(&"x".to_string()), Some(Binding::Parameter(0)));
}

#[test]
fn scope_inner_binding_shadows_outer() {
    let mut stack = ScopeStack::new();
    stack.declare("x".to_string(), Binding::Value(3)).unwrap();
    stack.add_scope();
    stack.declare("x".to_string(), Binding::Parameter(7)).unwrap();
    assert_eq!(stack.find(&"x".to_string()), Some(Binding::Parameter(7)));
    stack.pop();
    assert_eq!(stack.find(&"x".to_string()), Some(Binding::Value(3)));
    assert_eq!(stack.find(&"y".to_string()), None);
}

#[test]
fn binding_narrowing() {
    assert_eq!(Binding::Function(0).to_rvalue(), None);
    assert_eq!(Binding::Value(1).to_rvalue(), Some(1));
    assert_eq!(Binding::StorageLocation(2).to_rvalue(), Some(2));
    assert_eq!(Binding::Parameter(3).to_rvalue(), Some(3));
}

#[test]
fn empty_scope_binds_nothing() {
    let scope = Scope::new();
    assert_eq!(scope.get(&"a".to_string()), None);
}
