use ekanite::env::{
    env_def, env_extend, env_get, env_lookup, env_set, fenv_def, fenv_get, fenv_lookup, is_undef,
    type_of_name, BoolVals, Envir, F64Vals, StrVals, TypeContent, Types,
};
use ekanite::lexer::LexToken;
use ekanite::parser::Node;

fn s(x: &str) -> String {
    x.to_string()
}

#[test]
fn declared_variable_is_unset_until_written() {
    let mut e = Envir::new_root();
    env_def(&mut e, s("x"), s("f64"));
    assert!(matches!(e.vars.get("x"), Some(TypeContent::F64(F64Vals::Undefined))));
    let three = 3.0f64.to_bits();
    env_set(&mut e, s("x"), TypeContent::F64(F64Vals::Defined(three)));
    match env_get(&e, s("x")) {
        TypeContent::F64(F64Vals::Defined(b)) => assert_eq!(f64::from_bits(b), 3.0),
        other => panic!("{:?}", other),
    }
}

#[test]
fn writing_keeps_other_variables() {
    let mut e = Envir::new_root();
    env_def(&mut e, s("a"), s("str"));
    env_def(&mut e, s("b"), s("bool"));
    env_set(&mut e, s("a"), TypeContent::str(StrVals::Defined(s("hi"))));
    env_set(&mut e, s("b"), TypeContent::bool(BoolVals::Defined(false)));
    match env_get(&e, s("a")) {
        TypeContent::str(StrVals::Defined(v)) => assert_eq!(v, "hi"),
        other => panic!("{:?}", other),
    }
    assert!(matches!(env_get(&e, s("b")), TypeContent::bool(BoolVals::Defined(false))));
    assert_eq!(e.vars.len(), 2);
}

#[test]
fn a_redeclaration_clears_the_value() {
    let mut e = Envir::new_root();
    env_def(&mut e, s("x"), s("bool"));
    env_set(&mut e, s("x"), TypeContent::bool(BoolVals::Defined(true)));
    env_def(&mut e, s("x"), s("str"));
    assert!(matches!(e.vars.get("x"), Some(TypeContent::str(StrVals::Undefined))));
}

#[test]
fn type_names_are_the_four_known_ones() {
    assert_eq!(type_of_name(&s("f64")), Some(Types::F64));
    assert_eq!(type_of_name(&s("bool")), Some(Types::bool));
    assert_eq!(type_of_name(&s("str")), Some(Types::str));
    assert_eq!(type_of_name(&s("void")), Some(Types::void));
    assert_eq!(type_of_name(&s("int")), None);
}

#[test]
fn void_declarations_hold_no_value() {
    let mut e = Envir::new_root();
    env_def(&mut e, s("v"), s("void"));
    assert!(matches!(e.vars.get("v"), Some(TypeContent::void)));
}

#[test]
fn is_undef_tells_missing_values() {
    assert!(is_undef(TypeContent::void));
    assert!(is_undef(TypeContent::F64(F64Vals::Undefined)));
    assert!(!is_undef(TypeContent::bool(BoolVals::Defined(false))));
    assert!(!is_undef(TypeContent::str(StrVals::Defined(s("")))));
    assert!(is_undef(TypeContent::str(StrVals::Undefined)));
}

#[test]
fn lookup_walks_up_to_the_defining_scope() {
    let mut root = Envir::new_root();
    env_def(&mut root, s("g"), s("bool"));
    let mut child = env_extend(&root);
    env_def(&mut child, s("l"), s("bool"));
    let found = env_lookup(&child, s("g")).unwrap();
    assert!(found.is_root);
    let here = env_lookup(&child, s("l")).unwrap();
    assert!(!here.is_root);
    assert_eq!(env_lookup(&child, s("none")).err(), Some(false));
    assert!(!child.vars.contains_key("g"));
}

#[test]
fn functions_are_defined_and_read_back() {
    let mut e = Envir::new_root();
    let args = Box::new(vec![Node::Dec(LexToken::ID(s("a")), LexToken::ID(s("f64")))]);
    fenv_def(&mut e, s("f"), s("f64"), args, Node::Null);
    let f = fenv_get(&e, s("f"));
    assert_eq!(f.typ, Types::F64);
    assert_eq!(f.args.len(), 1);
    assert!(!e.fns.contains_key("g"));
    let child = env_extend(&e);
    assert!(fenv_lookup(&child, s("f")).unwrap().is_root);
    assert_eq!(fenv_lookup(&child, s("g")).err(), Some(false));
}
