use ekanite::env::{BoolVals, EnvError, F64Vals, StrVals, TypeContent};
use ekanite::env::Envir;
use ekanite::eval::{
    apply_op, chk_bool, chk_num, eval, op_check, Action, EvalError, Event, Frame, Machine, Mode,
    OpOutcome,
};
use ekanite::lexer::LexToken;
use ekanite::parser::{Literal, Node};

fn s(x: &str) -> String {
    x.to_string()
}

fn num(x: &str) -> Node {
    Node::Literal(Literal::Num(s(x)))
}

fn name(x: &str) -> Node {
    Node::ID(s(x))
}

fn op(l: Node, o: &str, r: Node) -> Node {
    Node::Binary(Box::new(l), LexToken::OP(s(o)), Box::new(r))
}

fn dec(x: &str, t: &str) -> Node {
    Node::Dec(LexToken::ID(s(x)), LexToken::ID(s(t)))
}

fn call(f: &str, args: Vec<Node>) -> Node {
    Node::Call(LexToken::ID(s(f)), Box::new(args))
}

fn prog(items: Vec<Node>) -> Node {
    Node::Prog(Box::new(items))
}

fn compute(op: usize, a: u64, b: u64) -> Event {
    let (x, y) = (f64::from_bits(a), f64::from_bits(b));
    match op {
        3 => Event::Truth(x < y),
        4 => Event::Truth(x > y),
        5 => Event::Truth(x <= y),
        6 => Event::Truth(x >= y),
        7 => Event::Truth(x == y),
        8 => Event::Truth(x != y),
        9 => Event::Number((x + y).to_bits()),
        10 => Event::Number((x - y).to_bits()),
        11 => Event::Number((x * y).to_bits()),
        12 => Event::Number((x / y).to_bits()),
        _ => Event::Number((x % y).to_bits()),
    }
}

/// Runs a program to its end; returns what it printed and how it ended.
fn run(program: Node) -> (Vec<String>, Result<TypeContent, EvalError>) {
    let mut m = Machine::new(program);
    let mut ev = Event::Resume;
    let mut out = Vec::new();
    for _ in 0..10000 {
        let (m2, a) = m.step(ev);
        m = m2;
        ev = Event::Resume;
        match a {
            Action::Continue => {}
            Action::Compute(o, x, y) => ev = compute(o, x, y),
            Action::ReadNumber(t) => ev = Event::Number(t.parse::<f64>().unwrap().to_bits()),
            Action::PrintNum(x) => out.push(format!("{}", f64::from_bits(x))),
            Action::PrintStr(t) => out.push(t),
            Action::Finished(v) => return (out, Ok(v)),
            Action::Failed(e) => return (out, Err(e)),
        }
    }
    panic!("did not finish");
}

#[test]
fn a_literal_is_its_own_value() {
    let (out, r) = run(num("2.5"));
    assert!(out.is_empty());
    match r {
        Ok(TypeContent::F64(F64Vals::Defined(b))) => assert_eq!(f64::from_bits(b), 2.5),
        other => panic!("{:?}", other),
    }
}

#[test]
fn hello_world_prints() {
    let (out, r) = run(call("print", vec![Node::Literal(Literal::String(s("Hello, world!")))]));
    assert_eq!(out, vec!["Hello, world!"]);
    assert!(matches!(r, Ok(TypeContent::void)));
}

#[test]
fn variables_are_declared_assigned_and_read() {
    let p = prog(vec![
        dec("x", "f64"),
        op(name("x"), "=", op(num("1"), "+", num("2"))),
        call("print", vec![op(name("x"), "*", num("4"))]),
    ]);
    let (out, r) = run(p);
    assert_eq!(out, vec!["12"]);
    assert!(matches!(r, Ok(TypeContent::void)));
}

#[test]
fn if_takes_the_branch_of_its_condition() {
    let p = Node::If(
        Box::new(op(num("1"), "==", num("2"))),
        Box::new(call("print", vec![Node::Literal(Literal::String(s("One equals two")))])),
        Box::new(call("print", vec![Node::Literal(Literal::String(s("One does not equal two")))])),
    );
    let (out, _) = run(p);
    assert_eq!(out, vec!["One does not equal two"]);
}

#[test]
fn functions_take_arguments_and_return() {
    let def = Node::FnDef(
        Box::new(name("double")),
        Box::new(vec![dec("a", "f64")]),
        LexToken::ID(s("f64")),
        Box::new(prog(vec![Node::Return(Box::new(op(name("a"), "*", num("2"))))])),
    );
    let p = prog(vec![def, call("print", vec![call("double", vec![num("21")])])]);
    let (out, r) = run(p);
    assert_eq!(out, vec!["42"]);
    assert!(matches!(r, Ok(TypeContent::void)));
}

#[test]
fn function_without_return_gives_nothing() {
    let def = Node::FnDef(
        Box::new(name("say")),
        Box::new(vec![dec("t", "str")]),
        LexToken::FN_NULL_TYPE,
        Box::new(prog(vec![call("print", vec![name("t")])])),
    );
    let p = prog(vec![def, call("say", vec![Node::Literal(Literal::String(s("hi")))])]);
    let (out, r) = run(p);
    assert_eq!(out, vec!["hi"]);
    assert!(matches!(r, Ok(TypeContent::void)));
}

#[test]
fn reading_an_unknown_variable_fails() {
    let (_, r) = run(name("y"));
    match r {
        Err(EvalError::Env(EnvError::UndefinedVariable(n))) => assert_eq!(n, "y"),
        other => panic!("{:?}", other),
    }
}

#[test]
fn reading_an_unset_variable_fails() {
    let (_, r) = run(prog(vec![dec("x", "bool"), name("x")]));
    assert!(matches!(r, Err(EvalError::Env(EnvError::UnsetVariable(_)))));
}

#[test]
fn evaluation_errors() {
    assert!(matches!(run(dec("x", "int")).1, Err(EvalError::Env(EnvError::UnknownType(_)))));
    assert!(matches!(run(Node::Return(Box::new(Node::Null))).1, Err(EvalError::UnhandledReturn)));
    assert!(matches!(run(op(num("1"), "=", num("2"))).1, Err(EvalError::AssignToNonName)));
    assert!(matches!(run(op(num("1"), "^", num("2"))).1, Err(EvalError::UnknownOperator)));
    assert!(matches!(run(call("print", vec![])).1, Err(EvalError::MissingArgument)));
    assert!(matches!(
        run(call("print", vec![Node::Literal(Literal::Bool(true))])).1,
        Err(EvalError::CannotPrint)
    ));
    assert!(matches!(
        run(Node::If(Box::new(num("1")), Box::new(Node::Null), Box::new(Node::Null))).1,
        Err(EvalError::NonBooleanCondition)
    ));
    assert!(matches!(run(call("nope", vec![])).1, Err(EvalError::Env(EnvError::UndefinedFunction(_)))));
    assert!(matches!(
        run(op(Node::Literal(Literal::Bool(true)), "+", num("1"))).1,
        Err(EvalError::NotANumber)
    ));
}

#[test]
fn wrong_number_of_arguments_fails() {
    let def = Node::FnDef(Box::new(name("f")), Box::new(vec![dec("a", "f64")]), LexToken::FN_NULL_TYPE, Box::new(Node::Null));
    let (_, r) = run(prog(vec![def, call("f", vec![])]));
    assert!(matches!(r, Err(EvalError::WrongArgumentCount)));
}

#[test]
fn definitions_need_declared_parameters() {
    let def = Node::FnDef(Box::new(name("f")), Box::new(vec![name("a")]), LexToken::FN_NULL_TYPE, Box::new(Node::Null));
    assert!(matches!(run(def).1, Err(EvalError::NotADeclaration)));
}

#[test]
fn a_finished_machine_stays_finished() {
    let mut m = Machine::new(Node::Null);
    let (m2, a) = m.step(Event::Resume);
    m = m2;
    assert!(matches!(a, Action::Continue));
    let (m3, a) = m.step(Event::Resume);
    assert!(matches!(a, Action::Finished(TypeContent::void)));
    let (_, again) = m3.step(Event::Number(5));
    assert!(matches!(again, Action::Finished(TypeContent::void)));
}

#[test]
fn a_wrong_answer_stops_the_machine() {
    let mut m = Machine::new(op(num("1"), "+", num("2")));
    let mut ev = Event::Resume;
    loop {
        let (m2, a) = m.step(ev);
        m = m2;
        ev = Event::Resume;
        match a {
            Action::ReadNumber(t) => ev = Event::Number(t.parse::<f64>().unwrap().to_bits()),
            Action::Compute(o, x, y) => {
                assert_eq!(o, 9);
                assert_eq!(f64::from_bits(x), 1.0);
                assert_eq!(f64::from_bits(y), 2.0);
                break;
            }
            Action::Continue => {}
            other => panic!("{:?}", other),
        }
    }
    let (_, a) = m.step(Event::Truth(true));
    assert!(matches!(a, Action::Failed(EvalError::UnexpectedEvent)));
    let m = Machine::new(num("4"));
    let (m, a) = m.step(Event::Resume);
    assert!(matches!(a, Action::ReadNumber(_)));
    let (_, a) = m.step(Event::Resume);
    assert!(matches!(a, Action::Failed(EvalError::UnexpectedEvent)));
}

#[test]
fn logical_operators_look_right_only_when_needed() {
    let t = || TypeContent::bool(BoolVals::Defined(true));
    let f = || TypeContent::bool(BoolVals::Defined(false));
    let five = || TypeContent::F64(F64Vals::Defined(5.0f64.to_bits()));
    assert!(matches!(apply_op(1, t(), five()), OpOutcome::Value(TypeContent::bool(BoolVals::Defined(true)))));
    assert!(matches!(op_check(1, &f(), &five()), Some(EvalError::NotABoolean)));
    assert!(matches!(apply_op(2, f(), five()), OpOutcome::Value(TypeContent::bool(BoolVals::Defined(false)))));
    assert!(matches!(apply_op(2, t(), f()), OpOutcome::Value(TypeContent::bool(BoolVals::Defined(false)))));
    assert!(matches!(apply_op(1, f(), t()), OpOutcome::Value(TypeContent::bool(BoolVals::Defined(true)))));
}

#[test]
fn numeric_operators_are_handed_on_with_their_operands() {
    let a = 5.0f64.to_bits();
    let b = 2.0f64.to_bits();
    match apply_op(10, TypeContent::F64(F64Vals::Defined(a)), TypeContent::F64(F64Vals::Defined(b))) {
        OpOutcome::Numeric(op, x, y) => {
            assert_eq!(op, 10);
            assert_eq!(x, a);
            assert_eq!(y, b);
        }
        other => panic!("{:?}", other),
    }
}

#[test]
fn op_check_names_each_error() {
    let five = || TypeContent::F64(F64Vals::Defined(5.0f64.to_bits()));
    assert!(op_check(9, &five(), &five()).is_none());
    assert!(matches!(op_check(0, &five(), &five()), Some(EvalError::UnknownOperator)));
    assert!(matches!(op_check(14, &five(), &five()), Some(EvalError::UnknownOperator)));
    assert!(matches!(op_check(3, &TypeContent::F64(F64Vals::Undefined), &five()), Some(EvalError::UndefinedOperand)));
    assert!(matches!(op_check(3, &five(), &TypeContent::void), Some(EvalError::NotANumber)));
    assert!(matches!(
        op_check(2, &TypeContent::bool(BoolVals::Defined(true)), &TypeContent::bool(BoolVals::Undefined)),
        Some(EvalError::UndefinedOperand)
    ));
}

#[test]
fn operand_checks() {
    assert_eq!(chk_num(TypeContent::F64(F64Vals::Defined(7))), 7);
    assert_eq!(chk_bool(TypeContent::bool(BoolVals::Defined(true))), true);
    assert_eq!(chk_bool(TypeContent::bool(BoolVals::Defined(false))), false);
}

#[test]
fn eval_steps_into_a_binary_operator() {
    let scopes = vec![Envir::new_root()];
    let (sc, fr, mode, a) = eval(scopes, Vec::new(), op(num("1"), "+", num("2")));
    assert_eq!(sc.len(), 1);
    assert_eq!(fr.len(), 1);
    assert!(matches!(fr[0], Frame::LeftBinary(_, 9)));
    assert!(matches!(mode, Mode::Eval(Node::Literal(Literal::Num(_)))));
    assert!(matches!(a, Action::Continue));
}

#[test]
fn eval_asks_for_a_numeral_to_be_read() {
    let (_, fr, mode, a) = eval(vec![Envir::new_root()], Vec::new(), num("2.5"));
    assert!(fr.is_empty());
    assert!(matches!(mode, Mode::AwaitNumber));
    match a {
        Action::ReadNumber(t) => assert_eq!(t, "2.5"),
        other => panic!("{:?}", other),
    }
}

#[test]
fn comparisons_and_arithmetic_run_through_the_runner() {
    let p = prog(vec![
        dec("x", "f64"),
        op(name("x"), "=", op(num("7"), "%", num("4"))),
        Node::If(
            Box::new(op(name("x"), ">=", num("3"))),
            Box::new(call("print", vec![op(name("x"), "-", num("1"))])),
            Box::new(call("print", vec![name("x")])),
        ),
    ]);
    let (out, r) = run(p);
    assert_eq!(out, vec!["2"]);
    assert!(matches!(r, Ok(TypeContent::void)));
}

#[test]
fn more_evaluation_errors() {
    let unset_if = prog(vec![
        dec("b", "bool"),
        Node::If(Box::new(op(name("b"), "||", name("b"))), Box::new(Node::Null), Box::new(Node::Null)),
    ]);
    assert!(matches!(run(unset_if).1, Err(EvalError::Env(EnvError::UnsetVariable(_)))));
    let assign_undeclared = op(name("z"), "=", num("1"));
    assert!(matches!(
        run(assign_undeclared).1,
        Err(EvalError::Env(EnvError::UndefinedVariable(_)))
    ));
    let bad_param = Node::FnDef(
        Box::new(name("f")),
        Box::new(vec![dec("a", "int")]),
        LexToken::FN_NULL_TYPE,
        Box::new(Node::Null),
    );
    let (_, r) = run(prog(vec![bad_param, call("f", vec![num("1")])]));
    assert!(matches!(r, Err(EvalError::Env(EnvError::UnknownType(_)))));
    let bad_type = Node::FnDef(Box::new(name("g")), Box::new(vec![]), LexToken::ID(s("int")), Box::new(Node::Null));
    assert!(matches!(run(bad_type).1, Err(EvalError::Env(EnvError::UnknownType(_)))));
}

#[test]
fn only_the_chosen_branch_runs() {
    let p = prog(vec![
        dec("x", "f64"),
        op(name("x"), "=", num("5")),
        Node::If(
            Box::new(op(name("x"), "<", num("3"))),
            Box::new(call("print", vec![name("undeclared")])),
            Box::new(call("print", vec![name("x")])),
        ),
    ]);
    let (out, r) = run(p);
    assert_eq!(out, vec!["5"]);
    assert!(matches!(r, Ok(TypeContent::void)));
}
