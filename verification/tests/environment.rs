use ape_core::env::{Env, FuncKind};
use ape_core::errors::ErrorCode;
use ape_core::stdlib::{func, load, PRINT};
use ape_core::value::{DeclrFuncType, LiteralType};

fn s(text: &str) -> String {
    text.to_string()
}

fn n(x: f64) -> LiteralType<'static> {
    LiteralType::Number(x.to_bits())
}

#[test]
fn defined_names_are_found() {
    let mut env = Env::new();
    env.define(0, s("x"), n(1.0));
    assert_eq!(env.get(0, &s("x")).unwrap(), n(1.0));
    let e = env.get(0, &s("y")).unwrap_err();
    assert_eq!(e.code, ErrorCode::E0x306);
    assert_eq!(e.args, vec![s("y")]);
}

#[test]
fn a_second_definition_replaces_the_first() {
    let mut env = Env::new();
    env.define(0, s("x"), n(1.0));
    env.define(0, s("y"), n(5.0));
    env.define_pub(0, s("x"), n(2.0));
    assert_eq!(env.get(0, &s("x")).unwrap(), n(2.0));
    assert_eq!(env.get(0, &s("y")).unwrap(), n(5.0));
    assert_eq!(env.scopes[0].bindings.len(), 2);
    assert!(env.scopes[0].bindings[0].is_pub);
    assert!(!env.scopes[0].bindings[1].is_pub);
}

#[test]
fn lookup_walks_outward() {
    let mut env = Env::new();
    env.define(0, s("x"), n(1.0));
    let inner = env.enclose(0);
    let innermost = env.enclose(inner);
    assert_eq!((inner, innermost), (1, 2));
    assert_eq!(env.get(innermost, &s("x")).unwrap(), n(1.0));
    // shadowing: the outer binding stays
    env.define(inner, s("x"), n(2.0));
    assert_eq!(env.get(innermost, &s("x")).unwrap(), n(2.0));
    assert_eq!(env.get(inner, &s("x")).unwrap(), n(2.0));
    assert_eq!(env.get(0, &s("x")).unwrap(), n(1.0));
    // a sibling scope does not see it
    let sibling = env.enclose(0);
    assert_eq!(env.get(sibling, &s("x")).unwrap(), n(1.0));
}

#[test]
fn lookup_at_a_depth() {
    let mut env = Env::new();
    env.define(0, s("x"), n(1.0));
    let inner = env.enclose(0);
    env.define(inner, s("x"), n(2.0));
    let innermost = env.enclose(inner);
    assert_eq!(env.get_at(innermost, 1, &s("x")).unwrap(), n(2.0));
    assert_eq!(env.get_at(innermost, 2, &s("x")).unwrap(), n(1.0));
    // exactly that scope is searched
    assert_eq!(env.get_at(innermost, 0, &s("x")).unwrap_err().code, ErrorCode::E0x306);
    // the chain is not that long
    assert_eq!(env.get_at(innermost, 3, &s("x")).unwrap_err().code, ErrorCode::E0x306);
    assert_eq!(env.ancestor(innermost, 2), Some(0));
    assert_eq!(env.ancestor(innermost, 3), None);
    assert_eq!(env.outer(inner), Some(0));
    assert_eq!(env.outer(0), None);
}

#[test]
fn assignment_overwrites_the_nearest_binding() {
    let mut env = Env::new();
    env.define_pub(0, s("x"), n(1.0));
    let inner = env.enclose(0);
    env.assign(inner, &s("x"), n(3.0)).unwrap();
    assert_eq!(env.get(0, &s("x")).unwrap(), n(3.0));
    // the visibility stays
    assert!(env.scopes[0].bindings[0].is_pub);
    // nothing is made in the inner scope
    assert!(env.scopes[inner].bindings.is_empty());
    let e = env.assign(inner, &s("y"), n(1.0)).unwrap_err();
    assert_eq!(e.code, ErrorCode::E0x306);
    assert_eq!(env.get(inner, &s("y")).unwrap_err().code, ErrorCode::E0x306);
}

#[test]
fn dangling_handles_find_nothing() {
    let env = Env::new();
    assert!(env.get(7, &s("x")).is_err());
    assert_eq!(env.outer(7), None);
    assert_eq!(env.locate(7, &s("x")), None);
}

#[test]
fn host_functions_are_registered_in_the_root() {
    let mut env = Env::new();
    func("now", 0, &mut env, 7);
    let inner = env.enclose(0);
    let expected = LiteralType::DeclrFunc(DeclrFuncType { name: s("now"), arity: 0, func: 7 });
    assert_eq!(env.get(inner, &s("now")).unwrap(), expected);
    let b = &env.scopes[0].bindings[0];
    assert!(b.is_pub);
    assert_eq!(
        b.kind,
        Some(FuncKind { params: vec![], is_async: false, is_pub: false, is_impl: false, is_mut: false })
    );
}

#[test]
fn the_standard_library_holds_print() {
    let mut env = Env::new();
    load(&mut env);
    let expected = LiteralType::DeclrFunc(DeclrFuncType { name: s("print"), arity: 1, func: PRINT });
    assert_eq!(env.get(0, &s("print")).unwrap(), expected);
}

#[test]
fn no_scope_binds_a_name_twice() {
    let mut env = Env::new();
    for round in 0..3 {
        env.define(0, s("x"), n(round as f64));
        env.define_pub(0, s("y"), n(1.0));
        env.assign(0, &s("x"), n(9.0)).unwrap();
    }
    let names: Vec<&str> = env.scopes[0].bindings.iter().map(|b| b.name.as_str()).collect();
    assert_eq!(names, vec!["x", "y"]);
    assert_eq!(env.get(0, &s("x")).unwrap(), n(9.0));
}
