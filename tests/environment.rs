use minilisp::{Env, Object};

#[test]
fn get_after_set_returns_value() {
    let mut env = Env::new();
    env.set("x", Object::Number(1));
    assert_eq!(env.get("x"), Some(Object::Number(1)));
}

#[test]
fn set_shadows_parent_binding() {
    let mut env = Env::new();
    env.set("x", Object::Number(1));
    env.extend();
    assert_eq!(env.get("x"), Some(Object::Number(1)));
    env.set("x", Object::Number(2));
    assert_eq!(env.get("x"), Some(Object::Number(2)));
    env.retract();
    assert_eq!(env.get("x"), Some(Object::Number(1)));
}

#[test]
fn set_overwrites_in_current_frame() {
    let mut env = Env::new();
    env.set("x", Object::Number(1));
    env.set("x", Object::Bool(true));
    assert_eq!(env.get("x"), Some(Object::Bool(true)));
    assert_eq!(env.get("y"), None);
}
