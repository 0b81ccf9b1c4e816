use ekanite::lexer::{classify, read_next, tokenize, CharClass, LexToken};

fn chars(s: &str) -> Vec<char> {
    s.chars().collect()
}

fn text(t: &LexToken) -> String {
    format!("{:?}", t)
}

#[test]
fn classify_sorts_characters() {
    assert_eq!(classify('a'), CharClass::LETTER);
    assert_eq!(classify('Z'), CharClass::LETTER);
    assert_eq!(classify('_'), CharClass::ID_START);
    assert_eq!(classify('7'), CharClass::DIGIT);
    assert_eq!(classify(' '), CharClass::WHITESPACE);
    assert_eq!(classify('\n'), CharClass::WHITESPACE);
    assert_eq!(classify('+'), CharClass::OP);
    assert_eq!(classify('|'), CharClass::OP);
    assert_eq!(classify('('), CharClass::PUNC);
    assert_eq!(classify('"'), CharClass::PUNC);
    assert_eq!(classify('['), CharClass::UNKNOWN);
    assert_eq!(classify('@'), CharClass::UNKNOWN);
}

#[test]
fn read_next_reads_one_token_and_removes_it() {
    let mut s = chars("  x = 12.5;");
    assert_eq!(text(&read_next(&mut s)), "ID(\"x\")");
    assert_eq!(s, chars(" = 12.5;"));
    assert_eq!(text(&read_next(&mut s)), "OP(\"=\")");
    assert_eq!(text(&read_next(&mut s)), "NUMBER(\"12.5\")");
    assert_eq!(text(&read_next(&mut s)), "PUNC(\";\")");
    assert!(s.is_empty());
    assert_eq!(text(&read_next(&mut s)), "EOF");
}

#[test]
fn read_next_on_whitespace_only_gives_eof() {
    let mut s = chars(" \t\n ");
    assert_eq!(text(&read_next(&mut s)), "EOF");
    assert!(s.is_empty());
}

#[test]
fn punctuation_stops_at_a_word() {
    let mut s = chars("::a");
    assert_eq!(text(&read_next(&mut s)), "PUNC(\":\")");
    assert_eq!(text(&read_next(&mut s)), "PUNC(\":\")");
    assert_eq!(text(&read_next(&mut s)), "ID(\"a\")");
    let mut q = chars("\"(a");
    assert_eq!(text(&read_next(&mut q)), "PUNC(\"\\\"(\")");
    assert_eq!(q, chars("a"));
}

#[test]
fn comments_are_read_whole() {
    let mut s = chars("// hi\nx");
    assert_eq!(text(&read_next(&mut s)), "SL_COMMENT(\" hi\")");
    assert_eq!(s, chars("\nx"));
    let mut b = chars("/* a */b");
    assert_eq!(text(&read_next(&mut b)), "ML_COMMENT(\" a \")");
    assert_eq!(b, chars("b"));
    let mut u = chars("/* ab");
    assert_eq!(text(&read_next(&mut u)), "ML_COMMENT(\" a\")");
    assert_eq!(u, chars("b"));
}

#[test]
fn names_run_over_letters_digits_and_underscores() {
    let mut f = chars("some_fn(");
    assert_eq!(text(&read_next(&mut f)), "ID(\"some_fn\")");
    assert_eq!(f, chars("("));
    let mut g = chars("arg1: f64");
    assert_eq!(text(&read_next(&mut g)), "ID(\"arg1\")");
    assert_eq!(text(&read_next(&mut g)), "PUNC(\":\")");
    assert_eq!(text(&read_next(&mut g)), "ID(\"f64\")");
    assert!(g.is_empty());
}

#[test]
fn a_name_starting_with_an_underscore_is_an_error() {
    let mut s = chars("_ab1 x");
    assert_eq!(text(&read_next(&mut s)), "ERROR");
    assert_eq!(s, chars(" x"));
    let toks = tokenize(chars("_"));
    let shown: Vec<String> = toks.iter().map(text).collect();
    assert_eq!(shown, vec!["ERROR", "EOF"]);
}

#[test]
fn unknown_characters_are_errors() {
    let mut u = chars("@# y");
    assert_eq!(text(&read_next(&mut u)), "ERROR");
    assert_eq!(u, chars(" y"));
}

#[test]
fn runs_of_one_class_form_one_token() {
    let mut s = chars("abc1 <=5.");
    assert_eq!(text(&read_next(&mut s)), "ID(\"abc1\")");
    assert_eq!(text(&read_next(&mut s)), "OP(\"<=\")");
    assert_eq!(text(&read_next(&mut s)), "NUMBER(\"5.\")");
    assert!(s.is_empty());
}

#[test]
fn tokenize_drops_comments_and_ends_with_eof() {
    let toks = tokenize(chars("a: f64; // note\nprint(a);"));
    let shown: Vec<String> = toks.iter().map(text).collect();
    assert_eq!(
        shown,
        vec![
            "ID(\"a\")", "PUNC(\":\")", "ID(\"f64\")", "PUNC(\";\")", "ID(\"print\")",
            "PUNC(\"(\")", "ID(\"a\")", "PUNC(\")\")", "PUNC(\";\")", "EOF"
        ]
    );
}

#[test]
fn tokenize_reads_a_number_at_the_end() {
    let toks = tokenize(chars("12"));
    let shown: Vec<String> = toks.iter().map(text).collect();
    assert_eq!(shown, vec!["NUMBER(\"12\")", "EOF"]);
}

#[test]
fn every_read_consumes_input() {
    let mut s = chars("a+b; /*c*/ 3 _x ;");
    let mut last = s.len();
    loop {
        let t = read_next(&mut s);
        if let LexToken::EOF = t {
            assert!(s.is_empty());
            break;
        }
        assert!(s.len() < last);
        last = s.len();
    }
}

#[test]
fn leading_whitespace_changes_nothing() {
    let mut a = chars(" \t\r\n foo(1)");
    let mut b = chars("foo(1)");
    assert_eq!(text(&read_next(&mut a)), text(&read_next(&mut b)));
    assert_eq!(a, b);
    assert_eq!(a, chars("(1)"));
}
