use ekanite::lexer::{tokenize, LexToken};
use ekanite::parser::{
    check_discriminant, delimited_parse_expression, maybe_call, maybe_dec, maybe_if, parse_call,
    parse_dec, parse_expression, parse_if, parse_prog, parse_program, parse_toplevel, File,
    ParseError,
};

fn file(src: &str) -> File {
    File { tokens: tokenize(src.chars().collect()), index: 0 }
}

fn id(s: &str) -> LexToken {
    LexToken::ID(s.to_string())
}

fn punc(s: &str) -> LexToken {
    LexToken::PUNC(s.to_string())
}

fn shown<T: std::fmt::Debug>(x: &T) -> String {
    format!("{:?}", x)
}

#[test]
fn maybe_checks_look_ahead_without_moving() {
    let mut f = file("a : b");
    assert!(maybe_dec(&mut f));
    assert!(!maybe_call(&mut f));
    assert!(!maybe_if(&mut f));
    assert_eq!(f.index, 0);
    let mut g = file("p(x)");
    assert!(maybe_call(&mut g));
    assert!(!maybe_dec(&mut g));
    let mut h = file("if {}");
    assert!(maybe_if(&mut h));
}

#[test]
fn parse_dec_reads_three_tokens() {
    let mut f = File { tokens: vec![id("a"), punc(":"), id("bool"), LexToken::EOF], index: 0 };
    let n = parse_dec(&mut f);
    assert_eq!(shown(&n), "Dec(ID(\"a\"), ID(\"bool\"))");
    assert_eq!(f.index, 3);
}

#[test]
fn a_bad_declaration_is_refused_where_it_stands() {
    let mut f = file("a : b c;");
    assert_eq!(parse_program(&mut f).unwrap_err(), ParseError { at: 3 });
    assert_eq!(f.index, 0);
    let mut h = File { tokens: vec![id("a"), punc(":")], index: 0 };
    assert_eq!(parse_program(&mut h).unwrap_err(), ParseError { at: 2 });
    assert_eq!(h.index, 0);
}

#[test]
fn parse_call_reads_arguments() {
    let mut f = file("print(x, g(y), z)");
    let n = parse_call(&mut f);
    assert_eq!(
        shown(&n),
        "Call(ID(\"print\"), [ID(\"x\"), Call(ID(\"g\"), [ID(\"y\")]), ID(\"z\")])"
    );
    assert_eq!(f.index, 11);
}

#[test]
fn parse_call_with_no_arguments() {
    let mut f = file("go()");
    let n = parse_call(&mut f);
    assert_eq!(shown(&n), "Call(ID(\"go\"), [])");
    assert_eq!(f.index, 3);
}

#[test]
fn a_call_without_a_comma_is_refused() {
    let mut f = file("p(x y);");
    assert_eq!(parse_program(&mut f).unwrap_err(), ParseError { at: 3 });
    assert_eq!(f.index, 0);
}

#[test]
fn a_call_with_a_non_name_argument_is_refused() {
    let mut f = file("p(;);");
    assert_eq!(parse_program(&mut f).unwrap_err(), ParseError { at: 2 });
}

#[test]
fn delimited_parse_expression_reads_a_name_or_a_call() {
    let mut f = file("x");
    assert_eq!(shown(&delimited_parse_expression(&mut f)), "ID(\"x\")");
    assert_eq!(f.index, 1);
    let mut g = file("f(a)");
    assert_eq!(shown(&delimited_parse_expression(&mut g)), "Call(ID(\"f\"), [ID(\"a\")])");
    assert_eq!(g.index, 4);
}

#[test]
fn parse_if_reads_the_condition_and_both_branches() {
    let mut f = file("if b { a : f64; } else { }");
    let n = parse_if(&mut f);
    assert_eq!(
        shown(&n),
        "If(ID(\"b\"), Prog([Dec(ID(\"a\"), ID(\"f64\"))]), Prog([]))"
    );
    assert_eq!(f.index, 11);
}

#[test]
fn parse_if_without_else() {
    let mut f = File {
        tokens: vec![id("if"), id("b"), punc("{"), punc("}"), LexToken::EOF],
        index: 0,
    };
    let n = parse_if(&mut f);
    assert_eq!(shown(&n), "If(ID(\"b\"), Prog([]), Null)");
    assert_eq!(f.index, 4);
}

#[test]
fn parse_if_reads_a_comparison() {
    let mut f = file("if 1 == 2 { } else { };");
    let n = parse_if(&mut f);
    assert_eq!(
        shown(&n),
        "If(Binary(Literal(Num(\"1\")), OP(\"==\"), Literal(Num(\"2\"))), Prog([]), Prog([]))"
    );
    assert_eq!(f.index, 9);
}

#[test]
fn operators_bind_by_strength() {
    let mut f = file("if a + b * c == d || e { }");
    let n = parse_if(&mut f);
    assert_eq!(
        shown(&n),
        "If(Binary(Binary(Binary(ID(\"a\"), OP(\"+\"), Binary(ID(\"b\"), OP(\"*\"), ID(\"c\"))), OP(\"==\"), ID(\"d\")), OP(\"||\"), ID(\"e\")), Prog([]), Null)"
    );
    let mut g = file("if a - b - c { }");
    assert_eq!(
        shown(&parse_if(&mut g)),
        "If(Binary(Binary(ID(\"a\"), OP(\"-\"), ID(\"b\")), OP(\"-\"), ID(\"c\")), Prog([]), Null)"
    );
}

#[test]
fn else_if_chains() {
    let mut f = file("if a { } else if b { } else { };");
    let n = parse_if(&mut f);
    assert_eq!(
        shown(&n),
        "If(ID(\"a\"), Prog([]), Prog([If(ID(\"b\"), Prog([]), Prog([]))]))"
    );
    assert_eq!(f.index, 12);
}

#[test]
fn an_if_without_a_condition_is_refused() {
    let mut f = file("if { };");
    assert_eq!(parse_program(&mut f).unwrap_err(), ParseError { at: 1 });
}

#[test]
fn parse_expression_reads_nothing_on_other_tokens() {
    let mut f = file(";");
    assert_eq!(shown(&parse_expression(&mut f)), "Null");
    assert_eq!(f.index, 0);
}

#[test]
fn parse_prog_without_brace_wraps_one_expression() {
    let mut f = file("a : b");
    assert_eq!(shown(&parse_prog(&mut f)), "Prog([Dec(ID(\"a\"), ID(\"b\"))])");
    assert_eq!(f.index, 3);
}

#[test]
fn a_block_needs_semicolons() {
    let mut f = file("{ a : b };");
    assert_eq!(parse_program(&mut f).unwrap_err(), ParseError { at: 4 });
    assert_eq!(f.index, 0);
}

#[test]
fn a_block_stops_at_the_end() {
    let mut f = file("{ p(x);");
    assert_eq!(parse_program(&mut f).unwrap_err(), ParseError { at: 6 });
}

#[test]
fn parse_toplevel_reads_a_program() {
    let mut f = file("a : b; print(a); { c : d; };");
    let n = parse_toplevel(&mut f);
    assert_eq!(
        shown(&n),
        "Prog([Dec(ID(\"a\"), ID(\"b\")), Call(ID(\"print\"), [ID(\"a\")]), Prog([Dec(ID(\"c\"), ID(\"d\"))])])"
    );
    assert_eq!(f.index, f.tokens.len() - 1);
}

#[test]
fn parse_program_reads_the_readme_conditional() {
    let mut f = file("some_fn(arg1, arg2); if arg1 == 3 { print(arg1); } else { print(arg2); };");
    let n = parse_program(&mut f).unwrap();
    assert_eq!(
        shown(&n),
        "Prog([Call(ID(\"some_fn\"), [ID(\"arg1\"), ID(\"arg2\")]), If(Binary(ID(\"arg1\"), OP(\"==\"), Literal(Num(\"3\"))), Prog([Call(ID(\"print\"), [ID(\"arg1\")])]), Prog([Call(ID(\"print\"), [ID(\"arg2\")])]))])"
    );
    assert_eq!(f.index, f.tokens.len() - 1);
}

#[test]
fn parse_toplevel_of_nothing() {
    let mut f = file("");
    assert_eq!(shown(&parse_toplevel(&mut f)), "Prog([])");
    assert_eq!(f.index, 0);
}

#[test]
fn a_program_of_a_number_is_refused() {
    let mut f = file("5;");
    assert_eq!(parse_program(&mut f).unwrap_err(), ParseError { at: 0 });
}

#[test]
fn check_discriminant_compares_kinds() {
    assert!(check_discriminant(&id("a"), &id("")));
    assert!(!check_discriminant(&id("a"), &punc("a")));
    assert!(check_discriminant(&LexToken::EOF, &LexToken::EOF));
}
