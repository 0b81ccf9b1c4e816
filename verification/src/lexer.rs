use vstd::prelude::*;

verus! {

/// The classes into which the tokenizer sorts characters.
#[allow(non_camel_case_types)]
#[derive(Debug, PartialEq, Eq, Structural, Clone, Copy)]
pub enum CharClass {
    ID_START,
    OP,
    WHITESPACE,
    LETTER,
    DIGIT,
    PUNC,
    UNKNOWN,
}

/// A token. `NUMBER` holds the numeral as it was written (digits, optionally
/// a point and more digits); its value is the decimal number that it denotes.
#[allow(non_camel_case_types)]
#[derive(Debug)]
pub enum LexToken {
    ID(String),
    NUMBER(String),
    PUNC(String),
    OP(String),
    SL_COMMENT(String),
    ML_COMMENT(String),
    EOF,
    ERROR,
    /// The result type of a function declared without one.
    FN_NULL_TYPE,
}

/// The mathematical value of a token: its kind and its text.
pub enum SpecToken {
    Id(Seq<char>),
    Number(Seq<char>),
    Punc(Seq<char>),
    Op(Seq<char>),
    SlComment(Seq<char>),
    MlComment(Seq<char>),
    Eof,
    Error,
    FnNullType,
}

impl View for LexToken {
    type V = SpecToken;

    open spec fn view(&self) -> SpecToken {
        match self {
            LexToken::ID(s) => SpecToken::Id(s@),
            LexToken::NUMBER(s) => SpecToken::Number(s@),
            LexToken::PUNC(s) => SpecToken::Punc(s@),
            LexToken::OP(s) => SpecToken::Op(s@),
            LexToken::SL_COMMENT(s) => SpecToken::SlComment(s@),
            LexToken::ML_COMMENT(s) => SpecToken::MlComment(s@),
            LexToken::EOF => SpecToken::Eof,
            LexToken::ERROR => SpecToken::Error,
            LexToken::FN_NULL_TYPE => SpecToken::FnNullType,
        }
    }
}

impl Clone for LexToken {
    fn clone(&self) -> (r: Self)
        ensures
            r@ == self@,
    {
        match self {
            LexToken::ID(s) => LexToken::ID(s.clone()),
            LexToken::NUMBER(s) => LexToken::NUMBER(s.clone()),
            LexToken::PUNC(s) => LexToken::PUNC(s.clone()),
            LexToken::OP(s) => LexToken::OP(s.clone()),
            LexToken::SL_COMMENT(s) => LexToken::SL_COMMENT(s.clone()),
            LexToken::ML_COMMENT(s) => LexToken::ML_COMMENT(s.clone()),
            LexToken::EOF => LexToken::EOF,
            LexToken::ERROR => LexToken::ERROR,
            LexToken::FN_NULL_TYPE => LexToken::FN_NULL_TYPE,
        }
    }
}

/// The operator characters `+-=/<>*%^&|`.
pub open spec fn is_op_char(c: char) -> bool {
    c == '+' || c == '-' || c == '=' || c == '/' || c == '<' || c == '>' || c == '*' || c
        == '%' || c == '^' || c == '&' || c == '|'
}

/// The punctuation characters `(){}.,;:"'`.
pub open spec fn is_punc_char(c: char) -> bool {
    c == '(' || c == ')' || c == '{' || c == '}' || c == '.' || c == ',' || c == ';' || c
        == ':' || c == '"' || c == '\''
}

/// The class of a character: letters are `LETTER` and `_` is `ID_START`.
pub open spec fn spec_classify(c: char) -> CharClass {
    if ('A' <= c && c <= 'Z') || ('a' <= c && c <= 'z') {
        CharClass::LETTER
    } else if c == '_' {
        CharClass::ID_START
    } else if '0' <= c && c <= '9' {
        CharClass::DIGIT
    } else if c == '\n' || c == '\t' || c == '\r' || c == ' ' {
        CharClass::WHITESPACE
    } else if is_op_char(c) {
        CharClass::OP
    } else if is_punc_char(c) {
        CharClass::PUNC
    } else {
        CharClass::UNKNOWN
    }
}

/// One of the punctuation words `{ } :: : ; . , ( [ ] )`, at which a run of
/// punctuation characters stops.
pub open spec fn is_punc_word(w: Seq<char>) -> bool {
    ||| w.len() == 1 && (w[0] == '{' || w[0] == '}' || w[0] == ':' || w[0] == ';' || w[0] == '.'
        || w[0] == ',' || w[0] == '(' || w[0] == '[' || w[0] == ']' || w[0] == ')')
    ||| w.len() == 2 && w[0] == ':' && w[1] == ':'
}

/// A character that may continue a name: a letter, a digit or `_`.
pub open spec fn is_id_char(c: char) -> bool {
    spec_classify(c) == CharClass::ID_START || spec_classify(c) == CharClass::LETTER
        || spec_classify(c) == CharClass::DIGIT
}

/// The end of the run of characters of class `c` that starts at `i`.
pub open spec fn class_end(s: Seq<char>, c: CharClass, i: int) -> int
    decreases s.len() - i,
{
    if 0 <= i < s.len() && spec_classify(s[i]) == c {
        class_end(s, c, i + 1)
    } else {
        i
    }
}

/// The end of an identifier that starts at `i`.
pub open spec fn id_end(s: Seq<char>, i: int) -> int
    decreases s.len() - i,
{
    if 0 <= i < s.len() && is_id_char(s[i]) {
        id_end(s, i + 1)
    } else {
        i
    }
}

/// The end of a punctuation token that starts at the front of `s`: characters
/// of class `PUNC` are taken until the text taken so far is a punctuation word.
pub open spec fn punc_end(s: Seq<char>, i: int) -> int
    decreases s.len() - i,
{
    if 0 <= i < s.len() && spec_classify(s[i]) == CharClass::PUNC && !is_punc_word(s.take(i)) {
        punc_end(s, i + 1)
    } else {
        i
    }
}

/// The position of the first line break at or after `i`, or the end of `s`.
pub open spec fn line_end(s: Seq<char>, i: int) -> int
    decreases s.len() - i,
{
    if 0 <= i < s.len() && s[i] != '\n' {
        line_end(s, i + 1)
    } else {
        i
    }
}

/// Where a block comment whose text starts at `i` ends: the end of its text and
/// the end of what it consumes. A comment closed by `*/` consumes the closing
/// pair; an unclosed one takes all but the last character.
pub open spec fn block_end(s: Seq<char>, i: int) -> (int, int)
    decreases s.len() - i,
{
    if 0 <= i && s.len() - i > 1 {
        if s[i] == '*' && s[i + 1] == '/' {
            (i, i + 2)
        } else {
            block_end(s, i + 1)
        }
    } else {
        (i, i)
    }
}

/// The token at the front of `s` (which does not start with whitespace) and
/// the rest of `s`; `None` where the tokenizer reads past the end of its input
/// (a number, or a name that starts with `_`, that runs to the end). A name
/// that starts with a letter runs over letters, digits and `_`; one that
/// starts with `_` is read over the same characters and gives the error
/// token.
pub open spec fn lex_front(s: Seq<char>) -> Option<(SpecToken, Seq<char>)> {
    if s.len() == 0 {
        Some((SpecToken::Eof, s))
    } else if spec_classify(s[0]) == CharClass::PUNC {
        let n = punc_end(s, 0);
        Some((SpecToken::Punc(s.take(n)), s.skip(n)))
    } else if s[0] == '/' && s.len() >= 2 && s[1] == '/' {
        let e = line_end(s, 2);
        Some((SpecToken::SlComment(s.subrange(2, e)), s.skip(e)))
    } else if s[0] == '/' && s.len() >= 2 && s[1] == '*' {
        let (ce, re) = block_end(s, 2);
        Some((SpecToken::MlComment(s.subrange(2, ce)), s.skip(re)))
    } else if spec_classify(s[0]) == CharClass::ID_START {
        let n = id_end(s, 0);
        if n >= s.len() {
            None
        } else {
            Some((SpecToken::Error, s.skip(n)))
        }
    } else if spec_classify(s[0]) == CharClass::LETTER {
        let n = id_end(s, 0);
        Some((SpecToken::Id(s.take(n)), s.skip(n)))
    } else {
        let c = spec_classify(s[0]);
        let n = class_end(s, c, 0);
        if c == CharClass::DIGIT {
            if n >= s.len() {
                None
            } else if s[n] == '.' {
                let m = class_end(s, CharClass::DIGIT, n + 1);
                Some((SpecToken::Number(s.take(m)), s.skip(m)))
            } else {
                Some((SpecToken::Number(s.take(n)), s.skip(n)))
            }
        } else if c == CharClass::OP {
            Some((SpecToken::Op(s.take(n)), s.skip(n)))
        } else {
            Some((SpecToken::Error, s.skip(n)))
        }
    }
}

/// What `read_next` gives on `s`: leading whitespace is skipped, then one token
/// is read. `None` where the tokenizer would read past the end of its input.
pub open spec fn spec_read_next(s: Seq<char>) -> Option<(SpecToken, Seq<char>)> {
    lex_front(s.skip(class_end(s, CharClass::WHITESPACE, 0)))
}

proof fn lemma_class_end(s: Seq<char>, c: CharClass, i: int)
    requires
        0 <= i <= s.len(),
    ensures
        i <= class_end(s, c, i) <= s.len(),
        forall|k: int| i <= k < class_end(s, c, i) ==> spec_classify(#[trigger] s[k]) == c,
        class_end(s, c, i) < s.len() ==> spec_classify(s[class_end(s, c, i)]) != c,
    decreases s.len() - i,
{
    if i < s.len() && spec_classify(s[i]) == c {
        lemma_class_end(s, c, i + 1);
    }
}

proof fn lemma_id_end(s: Seq<char>, i: int)
    requires
        0 <= i <= s.len(),
    ensures
        i <= id_end(s, i) <= s.len(),
        forall|k: int| i <= k < id_end(s, i) ==> is_id_char(#[trigger] s[k]),
    decreases s.len() - i,
{
    if i < s.len() && is_id_char(s[i]) {
        lemma_id_end(s, i + 1);
    }
}

proof fn lemma_punc_end(s: Seq<char>, i: int)
    requires
        0 <= i <= s.len(),
    ensures
        i <= punc_end(s, i) <= s.len(),
    decreases s.len() - i,
{
    if i < s.len() && spec_classify(s[i]) == CharClass::PUNC && !is_punc_word(s.take(i)) {
        lemma_punc_end(s, i + 1);
    }
}

proof fn lemma_line_end(s: Seq<char>, i: int)
    requires
        0 <= i <= s.len(),
    ensures
        i <= line_end(s, i) <= s.len(),
    decreases s.len() - i,
{
    if i < s.len() && s[i] != '\n' {
        lemma_line_end(s, i + 1);
    }
}

proof fn lemma_block_end(s: Seq<char>, i: int)
    requires
        0 <= i <= s.len(),
    ensures
        i <= block_end(s, i).0 <= block_end(s, i).1 <= s.len(),
        block_end(s, i).1 <= block_end(s, i).0 + 2,
        s.len() > 0 ==> block_end(s, i).1 >= s.len() - 1 || block_end(s, i).1
            == block_end(s, i).0 + 2,
    decreases s.len() - i,
{
    if s.len() - i > 1 && !(s[i] == '*' && s[i + 1] == '/') {
        lemma_block_end(s, i + 1);
    }
}

/// The class of a character.
pub fn classify(c: char) -> (r: CharClass)
    ensures
        r == spec_classify(c),
{
    if ('A' <= c && c <= 'Z') || ('a' <= c && c <= 'z') {
        CharClass::LETTER
    } else if c == '_' {
        CharClass::ID_START
    } else if '0' <= c && c <= '9' {
        CharClass::DIGIT
    } else if c == '\n' || c == '\t' || c == '\r' || c == ' ' {
        CharClass::WHITESPACE
    } else if c == '+' || c == '-' || c == '=' || c == '/' || c == '<' || c == '>' || c == '*'
        || c == '%' || c == '^' || c == '&' || c == '|' {
        CharClass::OP
    } else if c == '(' || c == ')' || c == '{' || c == '}' || c == '.' || c == ',' || c == ';'
        || c == ':' || c == '"' || c == '\'' {
        CharClass::PUNC
    } else {
        CharClass::UNKNOWN
    }
}

/// `String::push`, which appends one character to the end of the string.
#[verifier::external_body]
fn push_char(s: &mut String, c: char)
    ensures
        final(s)@ == old(s)@.push(c),
{
    s.push(c)
}

/// The characters `s[lo..hi]` as a string.
fn text_of(s: &Vec<char>, lo: usize, hi: usize) -> (r: String)
    requires
        lo <= hi <= s.len(),
    ensures
        r@ == s@.subrange(lo as int, hi as int),
{
    let mut r = String::new();
    let mut i = lo;
    while i < hi
        invariant
            lo <= i <= hi <= s.len(),
            r@ == s@.subrange(lo as int, i as int),
        decreases hi - i,
    {
        push_char(&mut r, s[i]);
        i = i + 1;
        assert(r@ =~= s@.subrange(lo as int, i as int));
    }
    r
}

/// The end of the run of characters of class `c` that starts at `i`.
fn scan_class(s: &Vec<char>, c: CharClass, i: usize) -> (r: usize)
    requires
        i <= s.len(),
    ensures
        r == class_end(s@, c, i as int),
{
    let mut j = i;
    while j < s.len() && classify(s[j]) == c
        invariant
            i <= j <= s.len(),
            class_end(s@, c, i as int) == class_end(s@, c, j as int),
        decreases s.len() - j,
    {
        j = j + 1;
    }
    j
}

/// Reads one token from the front of `s` and removes what it read: leading
/// whitespace, then the token's characters (a comment's opening and closing
/// marks included).
pub fn read_next(s: &mut Vec<char>) -> (r: LexToken)
    requires
        spec_read_next(old(s)@) is Some,
    ensures
        spec_read_next(old(s)@) == Some((r@, final(s)@)),
{
    let ghost s0 = s@;
    let w = scan_class(s, CharClass::WHITESPACE, 0);
    proof {
        lemma_class_end(s0, CharClass::WHITESPACE, 0);
    }
    let t = s.split_off(w);
    assert(t@ == s0.skip(w as int));
    *s = t;
    let ghost s1 = s@;
    if s.len() == 0 {
        return LexToken::EOF;
    }
    let c = classify(s[0]);
    if c == CharClass::PUNC {
        let mut n: usize = 0;
        while n < s.len() && classify(s[n]) == CharClass::PUNC && !is_punc_prefix(s, n)
            invariant
                n <= s.len(),
                s@ == s1,
                punc_end(s1, 0) == punc_end(s1, n as int),
            decreases s.len() - n,
        {
            n = n + 1;
        }
        let text = text_of(s, 0, n);
        let rest = s.split_off(n);
        *s = rest;
        return LexToken::PUNC(text);
    }
    if s[0] == '/' && s.len() >= 2 && s[1] == '/' {
        let mut e: usize = 2;
        while e < s.len() && s[e] != '\n'
            invariant
                2 <= e <= s.len(),
                s@ == s1,
                line_end(s1, 2) == line_end(s1, e as int),
            decreases s.len() - e,
        {
            e = e + 1;
        }
        let text = text_of(s, 2, e);
        let rest = s.split_off(e);
        *s = rest;
        return LexToken::SL_COMMENT(text);
    }
    if s[0] == '/' && s.len() >= 2 && s[1] == '*' {
        let mut e: usize = 2;
        let mut consumed: usize = 2;
        let mut closed = false;
        while !closed && s.len() - e > 1
            invariant
                2 <= e <= s.len(),
                s.len() >= 2,
                s@ == s1,
                !closed ==> block_end(s1, 2) == block_end(s1, e as int),
                closed ==> block_end(s1, 2) == (e as int, consumed as int),
            decreases s.len() - e, if closed { 0int } else { 1int },
        {
            if s[e] == '*' && s[e + 1] == '/' {
                closed = true;
                consumed = e + 2;
            } else {
                e = e + 1;
            }
        }
        if !closed {
            consumed = e;
        }
        proof {
            lemma_block_end(s1, 2);
        }
        let text = text_of(s, 2, e);
        let rest = s.split_off(consumed);
        *s = rest;
        return LexToken::ML_COMMENT(text);
    }
    if c == CharClass::ID_START || c == CharClass::LETTER {
        let mut n: usize = 0;
        while n < s.len() && is_id(s[n])
            invariant
                n <= s.len(),
                s@ == s1,
                id_end(s1, 0) == id_end(s1, n as int),
            decreases s.len() - n,
        {
            n = n + 1;
        }
        if c == CharClass::ID_START {
            let rest = s.split_off(n);
            *s = rest;
            return LexToken::ERROR;
        }
        let text = text_of(s, 0, n);
        let rest = s.split_off(n);
        *s = rest;
        return LexToken::ID(text);
    }
    let n = scan_class(s, c, 0);
    proof {
        lemma_class_end(s1, c, 0);
    }
    if c == CharClass::DIGIT {
        let mut m = n;
        if s[n] == '.' {
            m = scan_class(s, CharClass::DIGIT, n + 1);
            proof {
                lemma_class_end(s1, CharClass::DIGIT, n + 1);
            }
        }
        let text = text_of(s, 0, m);
        let rest = s.split_off(m);
        *s = rest;
        return LexToken::NUMBER(text);
    }
    let text = text_of(s, 0, n);
    let rest = s.split_off(n);
    *s = rest;
    if c == CharClass::OP {
        LexToken::OP(text)
    } else {
        LexToken::ERROR
    }
}

/// Whether `s[0..n]` is one of the punctuation words.
fn is_punc_prefix(s: &Vec<char>, n: usize) -> (r: bool)
    requires
        n <= s.len(),
    ensures
        r == is_punc_word(s@.take(n as int)),
{
    if n == 1 {
        let c = s[0];
        c == '{' || c == '}' || c == ':' || c == ';' || c == '.' || c == ',' || c == '(' || c
            == '[' || c == ']' || c == ')'
    } else if n == 2 {
        s[0] == ':' && s[1] == ':'
    } else {
        false
    }
}

/// Whether a character may continue a name: a letter, a digit or `_`.
fn is_id(c: char) -> (r: bool)
    ensures
        r == is_id_char(c),
{
    let k = classify(c);
    k == CharClass::ID_START || k == CharClass::LETTER || k == CharClass::DIGIT
}


/// The values of a list of tokens.
pub open spec fn tokens_view(t: Seq<LexToken>) -> Seq<SpecToken> {
    t.map_values(|x: LexToken| x@)
}

/// Whether a token is a comment.
pub open spec fn is_comment(t: SpecToken) -> bool {
    t is SlComment || t is MlComment
}

/// The tokens of a whole text: the tokens read one after another up to the
/// end marker, which closes the list; comments are left out. `None` where a
/// read would run past the end of the text.
pub open spec fn spec_tokens(s: Seq<char>) -> Option<Seq<SpecToken>>
    decreases s.len(),
{
    match spec_read_next(s) {
        None => None,
        Some((t, rest)) => if t is Eof {
            Some(seq![SpecToken::Eof])
        } else if rest.len() < s.len() {
            match spec_tokens(rest) {
                None => None,
                Some(ts) => if is_comment(t) {
                    Some(ts)
                } else {
                    Some(seq![t] + ts)
                },
            }
        } else {
            None
        },
    }
}

/// Each read takes what it reads off the front of the text: what is left is
/// the rest of the text, shorter unless the end was reached, and empty then.
pub proof fn law_read_next_progress(s: Seq<char>)
    ensures
        spec_read_next(s) matches Some((t, rest)) ==> {
            &&& rest =~= s.skip(s.len() - rest.len())
            &&& !(t is Eof) ==> rest.len() < s.len()
            &&& t is Eof ==> rest.len() == 0
        },
{
    let w = class_end(s, CharClass::WHITESPACE, 0);
    lemma_class_end(s, CharClass::WHITESPACE, 0);
    let s1 = s.skip(w);
    if s1.len() > 0 {
        let c = spec_classify(s1[0]);
        if c == CharClass::PUNC {
            lemma_punc_end(s1, 1);
            assert(!is_punc_word(s1.take(0)));
            assert(punc_end(s1, 0) == punc_end(s1, 1));
        } else if s1[0] == '/' && s1.len() >= 2 && (s1[1] == '/' || s1[1] == '*') {
            lemma_line_end(s1, 2);
            lemma_block_end(s1, 2);
        } else if c == CharClass::ID_START || c == CharClass::LETTER {
            lemma_id_end(s1, 1);
            assert(id_end(s1, 0) == id_end(s1, 1));
        } else {
            lemma_class_end(s1, c, 0);
            let n = class_end(s1, c, 0);
            if c == CharClass::DIGIT && n < s1.len() && s1[n] == '.' {
                lemma_class_end(s1, CharClass::DIGIT, n + 1);
            }
        }
    }
}

/// A text that is empty or ends with a line break is always read without
/// running past its end, and what is left of it is again empty or ends with a
/// line break.
pub proof fn law_read_next_on_lines(s: Seq<char>)
    requires
        s.len() == 0 || s.last() == '\n',
    ensures
        spec_read_next(s) matches Some((t, rest)) && (rest.len() == 0 || rest.last() == '\n'),
{
    law_read_next_progress(s);
    let w = class_end(s, CharClass::WHITESPACE, 0);
    lemma_class_end(s, CharClass::WHITESPACE, 0);
    let s1 = s.skip(w);
    if s1.len() > 0 {
        assert(s1.last() == '\n');
        let c = spec_classify(s1[0]);
        if c == CharClass::DIGIT {
            lemma_class_end(s1, c, 0);
            if class_end(s1, c, 0) >= s1.len() {
                assert(spec_classify(s1[s1.len() - 1]) == c);
            }
        }
        if c == CharClass::ID_START {
            lemma_id_end(s1, 0);
            if id_end(s1, 0) >= s1.len() {
                assert(is_id_char(s1[s1.len() - 1]));
            }
        }
    }
    if let Some((t, rest)) = spec_read_next(s) {
        if rest.len() > 0 {
            assert(rest.last() == s[s.len() - 1]);
        }
    }
}

/// A text that ends with a line break has tokens.
pub proof fn law_tokens_on_lines(s: Seq<char>)
    requires
        s.len() == 0 || s.last() == '\n',
    ensures
        spec_tokens(s) is Some,
    decreases s.len(),
{
    law_read_next_on_lines(s);
    law_read_next_progress(s);
    if let Some((t, rest)) = spec_read_next(s) {
        if !(t is Eof) {
            law_tokens_on_lines(rest);
        }
    }
}

/// The tokens of a text, read after a line break is added at its end (so that
/// no read runs past the end); comments are left out and the end marker
/// closes the list.
pub fn tokenize(text: Vec<char>) -> (r: Vec<LexToken>)
    ensures
        spec_tokens(text@.push('\n')) == Some(tokens_view(r@)),
{
    let mut s = text;
    s.push('\n');
    let ghost whole = s@;
    let mut out: Vec<LexToken> = Vec::new();
    proof {
        law_tokens_on_lines(s@);
    }
    loop
        invariant
            whole == text@.push('\n'),
            s@.len() == 0 || s@.last() == '\n',
            spec_tokens(s@) is Some,
            spec_tokens(whole) == Some(
                tokens_view(out@) + spec_tokens(s@)->0,
            ),
        decreases s@.len(),
    {
        let ghost before = s@;
        proof {
            law_read_next_on_lines(s@);
            law_read_next_progress(s@);
        }
        let t = read_next(&mut s);
        if let LexToken::EOF = t {
            assert(spec_tokens(before) == Some(seq![SpecToken::Eof]));
            let ghost old_out = out@;
            out.push(t);
            assert(tokens_view(out@) =~= tokens_view(old_out)
                + seq![SpecToken::Eof]);
            return out;
        }
        proof {
            law_read_next_on_lines(before);
            law_tokens_on_lines(s@);
        }
        match t {
            LexToken::SL_COMMENT(_) => {},
            LexToken::ML_COMMENT(_) => {},
            _ => {
                let ghost old_out = out@;
                let ghost tv = t@;
                out.push(t);
                assert(tokens_view(out@) =~= tokens_view(old_out)
                    + seq![tv]);
                assert(spec_tokens(before)->0 =~= seq![tv] + spec_tokens(s@)->0);
            },
        }
    }
}


/// The tokens of a text end with the end marker, which appears nowhere else,
/// and hold no comment.
pub proof fn law_tokens_shape(s: Seq<char>)
    ensures
        spec_tokens(s) matches Some(ts) ==> {
            &&& ts.len() > 0
            &&& ts.last() is Eof
            &&& forall|i: int| 0 <= i < ts.len() - 1 ==> !(#[trigger] ts[i] is Eof) && !is_comment(ts[i])
        },
    decreases s.len(),
{
    if let Some((t, rest)) = spec_read_next(s) {
        if !(t is Eof) && rest.len() < s.len() {
            law_tokens_shape(rest);
            if let Some(ts) = spec_tokens(rest) {
                if !is_comment(t) {
                    let all = seq![t] + ts;
                    assert forall|i: int| 0 <= i < all.len() - 1 implies !(#[trigger] all[i] is Eof) && !is_comment(all[i]) by {
                        if i > 0 {
                            assert(all[i] == ts[i - 1]);
                        }
                    }
                }
            }
        }
    }
}


proof fn lemma_class_end_shift(w: Seq<char>, t: Seq<char>, c: CharClass, k: int)
    requires
        0 <= k <= t.len(),
    ensures
        class_end(w + t, c, w.len() + k) == w.len() + class_end(t, c, k),
    decreases t.len() - k,
{
    if k < t.len() {
        assert((w + t)[w.len() + k] == t[k]);
        lemma_class_end_shift(w, t, c, k + 1);
    }
}

proof fn lemma_class_end_append(w: Seq<char>, t: Seq<char>, c: CharClass, i: int)
    requires
        0 <= i <= w.len(),
        forall|k: int| 0 <= k < w.len() ==> spec_classify(#[trigger] w[k]) == c,
    ensures
        class_end(w + t, c, i) == w.len() + class_end(t, c, 0),
    decreases w.len() - i,
{
    if i < w.len() {
        assert((w + t)[i] == w[i]);
        lemma_class_end_append(w, t, c, i + 1);
    } else {
        lemma_class_end_shift(w, t, c, 0);
    }
}

/// Leading whitespace changes nothing in a read: it is skipped, and the read
/// gives what it gives on the text after it, token and rest alike.
pub proof fn law_read_next_skips_whitespace(w: Seq<char>, t: Seq<char>)
    requires
        forall|k: int| 0 <= k < w.len() ==> spec_classify(#[trigger] w[k]) == CharClass::WHITESPACE,
    ensures
        spec_read_next(w + t) == spec_read_next(t),
{
    lemma_class_end_append(w, t, CharClass::WHITESPACE, 0);
    lemma_class_end(t, CharClass::WHITESPACE, 0);
    let n = class_end(t, CharClass::WHITESPACE, 0);
    assert((w + t).skip(w.len() + n) =~= t.skip(n));
}


proof fn lemma_block_end_shape(s: Seq<char>, i: int)
    requires
        2 <= i <= s.len(),
        forall|k: int| 2 <= k && k + 1 < s.len() && k < i ==> !(#[trigger] s[k] == '*' && s[k + 1] == '/'),
    ensures
        ({
            let (ce, re) = block_end(s, i);
            &&& i <= ce
            &&& forall|k: int| 2 <= k && k + 1 < ce ==> !(#[trigger] s[k] == '*' && s[k + 1] == '/')
            &&& (re == ce + 2 && ce + 1 < s.len() && s[ce] == '*' && s[ce + 1] == '/') || (re == ce && s.len() - ce
                <= 1)
        }),
    decreases s.len() - i,
{
    if s.len() - i > 1 && !(s[i] == '*' && s[i + 1] == '/') {
        lemma_block_end_shape(s, i + 1);
    }
}

/// A block comment is closed only by the pair `*/`: a read of a text that
/// opens with `/*` gives the comment's text, which holds no `*/`, and
/// consumes `/*`, that text and `*/`; where no `*/` follows, the comment runs
/// to the end of the text but for at most its last character, which is left.
pub proof fn law_block_comment_closed_by_pair(s: Seq<char>)
    requires
        s.len() >= 2,
        s[0] == '/',
        s[1] == '*',
    ensures
        spec_read_next(s) is Some,
        ({
            let (tok, rest) = spec_read_next(s)->0;
            &&& tok is MlComment
            &&& forall|k: int|
                0 <= k && k + 1 < tok->MlComment_0.len() ==> !(#[trigger] tok->MlComment_0[k] == '*'
                    && tok->MlComment_0[k + 1] == '/')
            &&& s =~= seq!['/', '*'] + tok->MlComment_0 + seq!['*', '/'] + rest || (rest.len() <= 1 && s =~= seq![
                '/',
                '*',
            ] + tok->MlComment_0 + rest)
        }),
{
    lemma_class_end(s, CharClass::WHITESPACE, 0);
    assert(class_end(s, CharClass::WHITESPACE, 0) == 0);
    assert(s.skip(0) =~= s);
    lemma_block_end_shape(s, 2);
    lemma_block_end(s, 2);
    let (ce, re) = block_end(s, 2);
    let c = s.subrange(2, ce);
    assert forall|k: int| 0 <= k && k + 1 < c.len() implies !(#[trigger] c[k] == '*' && c[k + 1] == '/') by {
        assert(c[k] == s[k + 2] && c[k + 1] == s[k + 3]);
    }
    if re == ce + 2 {
        assert(s =~= seq!['/', '*'] + c + seq!['*', '/'] + s.skip(re));
    } else {
        assert(s =~= seq!['/', '*'] + c + s.skip(re));
    }
}

} // verus!
