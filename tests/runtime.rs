use oxlang::runtime::{RuntimeEnv, RuntimeVal};

fn one() -> RuntimeVal {
    RuntimeVal::Num(1.0f64.to_bits())
}

#[test]
fn get_var_finds_bindings() {
    let env = RuntimeEnv::new(None, vec![("x".to_string(), one())]);
    assert_eq!(env.get_var("x"), Some(one()));
    assert_eq!(env.get_var("y"), None);
    assert!(env.var_exists("x"));
    assert!(!env.var_exists("y"));
}

#[test]
fn lookup_walks_out_to_the_parent() {
    let parent = RuntimeEnv::new(None, vec![("x".to_string(), one())]);
    let mut child = RuntimeEnv::create_with_parent(Box::new(parent));
    assert_eq!(child.get_var("x"), Some(one()));
    assert!(!child.var_exists("x"));
    child.set_var("x".to_string(), RuntimeVal::Bool(true));
    assert_eq!(child.get_var("x"), Some(RuntimeVal::Bool(true)));
    assert_eq!(child.parent.as_ref().unwrap().get_var("x"), Some(one()));
}

#[test]
fn set_var_overwrites_in_place() {
    let mut env = RuntimeEnv::empty();
    env.set_var("a".to_string(), RuntimeVal::Null);
    env.set_var("b".to_string(), one());
    env.set_var("a".to_string(), RuntimeVal::Str("s".to_string()));
    assert_eq!(env.vars.len(), 2);
    assert_eq!(env.get_var("a"), Some(RuntimeVal::Str("s".to_string())));
    assert_eq!(env.count_bindings(), 2);
}
