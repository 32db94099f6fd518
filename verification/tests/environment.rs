use lisp_rs::env::Env;
use lisp_rs::object::Object;

#[test]
fn new_environment_binds_nothing() {
    let env = Env::new();
    assert_eq!(env.get("x"), None);
    assert_eq!(env.get(""), None);
}

#[test]
fn set_then_get() {
    let mut env = Env::new();
    env.set("x", Object::Integer(10));
    env.set("y", Object::Bool(true));
    assert_eq!(env.get("x"), Some(Object::Integer(10)));
    assert_eq!(env.get("y"), Some(Object::Bool(true)));
    assert_eq!(env.get("z"), None);
}

#[test]
fn set_again_overwrites() {
    let mut env = Env::new();
    env.set("x", Object::Integer(10));
    env.set("y", Object::Integer(1));
    env.set("x", Object::Integer(2));
    assert_eq!(env.get("x"), Some(Object::Integer(2)));
    assert_eq!(env.get("y"), Some(Object::Integer(1)));
}

#[test]
fn child_sees_parent_bindings() {
    let mut root = Env::new();
    root.set("x", Object::Integer(1));
    let child = Env::extend(root);
    assert_eq!(child.get("x"), Some(Object::Integer(1)));
    assert_eq!(child.get("y"), None);
}

#[test]
fn child_binding_shadows_and_leaves_parent_alone() {
    let mut root = Env::new();
    root.set("x", Object::Integer(1));
    let mut child = Env::extend(root);
    child.set("x", Object::Integer(2));
    child.set("y", Object::Integer(3));
    assert_eq!(child.get("x"), Some(Object::Integer(2)));
    let mut grandchild = Env::extend(child);
    assert_eq!(grandchild.get("x"), Some(Object::Integer(2)));
    grandchild.set("x", Object::Integer(4));
    assert_eq!(grandchild.get("x"), Some(Object::Integer(4)));
    let child = grandchild.into_parent().unwrap();
    assert_eq!(child.get("x"), Some(Object::Integer(2)));
    let root = child.into_parent().unwrap();
    assert_eq!(root.get("x"), Some(Object::Integer(1)));
    assert_eq!(root.get("y"), None);
    assert!(root.into_parent().is_none());
}
