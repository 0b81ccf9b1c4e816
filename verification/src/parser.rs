use vstd::prelude::*;

use crate::lexer::{LexToken, SpecToken, tokens_view};

verus! {

/// A syntax tree.
#[derive(Debug)]
pub enum Node {
    /// A block: a sequence of expressions.
    Prog(Box<Vec<Node>>),
    /// A declaration: the name, then the type.
    Dec(LexToken, LexToken),
    /// Condition, then, else.
    If(Box<Node>, Box<Node>, Box<Node>),
    /// Left operand, operator, right operand.
    Binary(Box<Node>, LexToken, Box<Node>),
    /// A name.
    ID(String),
    /// The called name, then the arguments.
    Call(LexToken, Box<Vec<Node>>),
    /// Nothing.
    Null,
    /// A literal value.
    Literal(Literal),
    /// A function definition: the name, the parameter declarations, the
    /// result type and the body.
    FnDef(Box<Node>, Box<Vec<Node>>, LexToken, Box<Node>),
    /// A return from the enclosing function.
    Return(Box<Node>),
}

/// A literal value. A number is held as its numeral: digits, optionally a
/// point and more digits.
#[derive(Debug)]
pub enum Literal {
    Num(String),
    Bool(bool),
    String(String),
    Undef,
    Nothing,
}

/// The mathematical value of a literal.
pub enum SpecLiteral {
    Num(Seq<char>),
    Bool(bool),
    Str(Seq<char>),
    Undef,
    Nothing,
}

impl View for Literal {
    type V = SpecLiteral;

    open spec fn view(&self) -> SpecLiteral {
        match self {
            Literal::Num(n) => SpecLiteral::Num(n@),
            Literal::Bool(b) => SpecLiteral::Bool(*b),
            Literal::String(s) => SpecLiteral::Str(s@),
            Literal::Undef => SpecLiteral::Undef,
            Literal::Nothing => SpecLiteral::Nothing,
        }
    }
}

impl Clone for Literal {
    fn clone(&self) -> (r: Self)
        ensures
            r@ == self@,
    {
        match self {
            Literal::Num(n) => Literal::Num(n.clone()),
            Literal::Bool(b) => Literal::Bool(*b),
            Literal::String(s) => Literal::String(s.clone()),
            Literal::Undef => Literal::Undef,
            Literal::Nothing => Literal::Nothing,
        }
    }
}

impl Clone for Node {
    fn clone(&self) -> (r: Self)
        ensures
            r@ == self@,
    {
        copy_node(self)
    }
}

/// A copy of a syntax tree.
fn copy_node(n: &Node) -> (r: Node)
    ensures
        r@ == n@,
    decreases n,
{
    match n {
        Node::Prog(v) => {
            let c = copy_nodes(v);
            Node::Prog(Box::new(c))
        },
        Node::Dec(a, b) => Node::Dec(a.clone(), b.clone()),
        Node::If(c, t, e) => Node::If(
            Box::new(copy_node(c)),
            Box::new(copy_node(t)),
            Box::new(copy_node(e)),
        ),
        Node::Binary(l, op, r) => Node::Binary(
            Box::new(copy_node(l)),
            op.clone(),
            Box::new(copy_node(r)),
        ),
        Node::ID(s) => Node::ID(s.clone()),
        Node::Call(name, args) => {
            let c = copy_nodes(args);
            Node::Call(name.clone(), Box::new(c))
        },
        Node::Null => Node::Null,
        Node::Literal(l) => Node::Literal(l.clone()),
        Node::FnDef(name, args, typ, body) => {
            let c = copy_nodes(args);
            Node::FnDef(Box::new(copy_node(name)), Box::new(c), typ.clone(), Box::new(copy_node(body)))
        },
        Node::Return(x) => Node::Return(Box::new(copy_node(x))),
    }
}

/// A copy of a list of syntax trees.
pub(crate) fn copy_nodes(v: &Vec<Node>) -> (r: Vec<Node>)
    ensures
        nodes_view(r) == nodes_view(*v),
    decreases v,
{
    let mut r: Vec<Node> = Vec::new();
    let mut i: usize = 0;
    while i < v.len()
        invariant
            i <= v.len(),
            r.len() == i,
            forall|k: int| 0 <= k < i ==> (#[trigger] r@[k])@ == v@[k]@,
        decreases v.len() - i,
    {
        proof {
            assert(decreases_to!(v => v@));
            assert(decreases_to!(v@ => v@[i as int]));
        }
        let c = copy_node(&v[i]);
        r.push(c);
        i = i + 1;
    }
    assert(nodes_view(r) =~= nodes_view(*v));
    r
}

/// The mathematical value of a syntax tree.
pub enum SpecNode {
    Prog(Seq<SpecNode>),
    Dec(SpecToken, SpecToken),
    If(Box<SpecNode>, Box<SpecNode>, Box<SpecNode>),
    Binary(Box<SpecNode>, SpecToken, Box<SpecNode>),
    ID(Seq<char>),
    Call(SpecToken, Seq<SpecNode>),
    Null,
    Literal(SpecLiteral),
    FnDef(Box<SpecNode>, Seq<SpecNode>, SpecToken, Box<SpecNode>),
    Return(Box<SpecNode>),
}

/// The value of a syntax tree.
pub open spec fn node_view(n: Node) -> SpecNode
    decreases n,
{
    match n {
        Node::Prog(v) => SpecNode::Prog(nodes_view(*v)),
        Node::Dec(a, b) => SpecNode::Dec(a@, b@),
        Node::If(c, t, e) => SpecNode::If(
            Box::new(node_view(*c)),
            Box::new(node_view(*t)),
            Box::new(node_view(*e)),
        ),
        Node::Binary(l, op, r) => SpecNode::Binary(
            Box::new(node_view(*l)),
            op@,
            Box::new(node_view(*r)),
        ),
        Node::ID(s) => SpecNode::ID(s@),
        Node::Call(name, args) => SpecNode::Call(name@, nodes_view(*args)),
        Node::Null => SpecNode::Null,
        Node::Literal(l) => SpecNode::Literal(l@),
        Node::FnDef(name, args, typ, body) => SpecNode::FnDef(
            Box::new(node_view(*name)),
            nodes_view(*args),
            typ@,
            Box::new(node_view(*body)),
        ),
        Node::Return(x) => SpecNode::Return(Box::new(node_view(*x))),
    }
}

/// The values of a list of syntax trees.
pub open spec fn nodes_view(v: Vec<Node>) -> Seq<SpecNode>
    decreases v,
{
    Seq::new(
        v@.len(),
        |i: int|
            if 0 <= i < v@.len() {
                proof {
                    assert(decreases_to!(v => v@));
                    assert(decreases_to!(v@ => v@[i]));
                }
                node_view(v@[i])
            } else {
                SpecNode::Null
            },
    )
}

impl View for Node {
    type V = SpecNode;

    open spec fn view(&self) -> SpecNode {
        node_view(*self)
    }
}


/// The operators, by their codes: `=` is 0, `||` 1, `&&` 2, `<` 3, `>` 4,
/// `<=` 5, `>=` 6, `==` 7, `!=` 8, `+` 9, `-` 10, `*` 11, `/` 12, `%` 13.
pub open spec fn ops() -> Seq<Seq<char>> {
    seq![
        seq!['='],
        seq!['|', '|'],
        seq!['&', '&'],
        seq!['<'],
        seq!['>'],
        seq!['<', '='],
        seq!['>', '='],
        seq!['=', '='],
        seq!['!', '='],
        seq!['+'],
        seq!['-'],
        seq!['*'],
        seq!['/'],
        seq!['%'],
    ]
}

/// The first position, from `i` on, of `w` in `ops()`.
pub open spec fn op_index_from(w: Seq<char>, i: int) -> Option<int>
    decreases ops().len() - i,
{
    if !(0 <= i < ops().len()) {
        None
    } else if ops()[i] == w {
        Some(i)
    } else {
        op_index_from(w, i + 1)
    }
}

/// The code of an operator token: its position in `ops()`.
pub open spec fn spec_op_code(t: SpecToken) -> Option<int> {
    match t {
        SpecToken::Op(w) => op_index_from(w, 0),
        _ => None,
    }
}

/// The code of an operator token.
pub fn op_code(t: &LexToken) -> (r: Option<usize>)
    ensures
        match r {
            Some(i) => spec_op_code(t@) == Some(i as int) && i < 14,
            None => spec_op_code(t@) is None,
        },
{
    match t {
        LexToken::OP(s) => {
            let w = s.as_str();
            let n = w.unicode_len();
            let mut i: usize = 0;
            while i < 14
                invariant
                    n == w@.len(),
                    t@ == SpecToken::Op(w@),
                    i <= 14,
                    ops().len() == 14,
                    op_index_from(w@, 0) == op_index_from(w@, i as int),
                decreases 14 - i,
            {
                if matches_op(w, n, i) {
                    return Some(i);
                }
                i = i + 1;
            }
            None
        },
        _ => None,
    }
}

/// Whether `w` (of length `n`) is operator number `i`.
fn matches_op(w: &str, n: usize, i: usize) -> (r: bool)
    requires
        n == w@.len(),
        i < 14,
    ensures
        r == (ops()[i as int] == w@),
{
    let (c0, c1, len) = op_chars(i);
    if n != len {
        return false;
    }
    if w.get_char(0) != c0 {
        return false;
    }
    if len == 2 && w.get_char(1) != c1 {
        return false;
    }
    if len == 1 {
        assert(w@ =~= seq![c0]);
    } else {
        assert(w@ =~= seq![c0, c1]);
    }
    true
}

/// The characters of operator number `i` and its length.
fn op_chars(i: usize) -> (r: (char, char, usize))
    requires
        i < 14,
    ensures
        r.2 == 1 ==> ops()[i as int] == seq![r.0],
        r.2 == 2 ==> ops()[i as int] == seq![r.0, r.1],
        r.2 == 1 || r.2 == 2,
{
    if i == 0 {
        ('=', ' ', 1)
    } else if i == 1 {
        ('|', '|', 2)
    } else if i == 2 {
        ('&', '&', 2)
    } else if i == 3 {
        ('<', ' ', 1)
    } else if i == 4 {
        ('>', ' ', 1)
    } else if i == 5 {
        ('<', '=', 2)
    } else if i == 6 {
        ('>', '=', 2)
    } else if i == 7 {
        ('=', '=', 2)
    } else if i == 8 {
        ('!', '=', 2)
    } else if i == 9 {
        ('+', ' ', 1)
    } else if i == 10 {
        ('-', ' ', 1)
    } else if i == 11 {
        ('*', ' ', 1)
    } else if i == 12 {
        ('/', ' ', 1)
    } else {
        ('%', ' ', 1)
    }
}


/// How tightly each operator binds, by its code: `=` loosest, then `||`,
/// `&&`, the comparisons, `+` and `-`, and `*`, `/`, `%` tightest.
pub open spec fn strengths() -> Seq<int> {
    seq![1, 2, 3, 7, 7, 7, 7, 7, 7, 10, 10, 20, 20, 20]
}

/// How tightly operator number `k` binds.
fn strength(k: usize) -> (r: usize)
    requires
        k < 14,
    ensures
        r == strengths()[k as int],
{
    if k == 0 {
        1
    } else if k == 1 {
        2
    } else if k == 2 {
        3
    } else if k <= 8 {
        7
    } else if k <= 10 {
        10
    } else {
        20
    }
}

/// Parsing state: the tokens and the position of the next one to read.
pub struct File {
    pub tokens: Vec<LexToken>,
    pub index: usize,
}

/// A parse failure, at the position of the token that could not be parsed
/// (a position at or past the end when the tokens ran out).
#[derive(Debug, PartialEq, Eq, Structural, Clone, Copy)]
pub struct ParseError {
    pub at: usize,
}

/// The punctuation token made of one character.
pub open spec fn punc(c: char) -> SpecToken {
    SpecToken::Punc(seq![c])
}

/// The keyword `if`.
pub open spec fn kw_if() -> SpecToken {
    SpecToken::Id(seq!['i', 'f'])
}

/// The keyword `else`.
pub open spec fn kw_else() -> SpecToken {
    SpecToken::Id(seq!['e', 'l', 's', 'e'])
}

/// Whether a token is a name.
pub open spec fn is_id_token(t: SpecToken) -> bool {
    t is Id
}

/// A declaration starts at `i`: a name followed by `:`.
pub open spec fn spec_maybe_dec(t: Seq<SpecToken>, i: int) -> bool {
    is_id_token(t[i]) && t[i + 1] == punc(':')
}

/// A conditional starts at `i`.
pub open spec fn spec_maybe_if(t: Seq<SpecToken>, i: int) -> bool {
    t[i] == kw_if()
}

/// A call starts at `i`: a name followed by `(`.
pub open spec fn spec_maybe_call(t: Seq<SpecToken>, i: int) -> bool {
    is_id_token(t[i]) && t[i + 1] == punc('(')
}

/// Reading the token `k` at `i`: the position after it, or a failure at `i`.
pub open spec fn spec_skip(t: Seq<SpecToken>, i: int, k: SpecToken) -> Result<int, int> {
    if 0 <= i < t.len() && t[i] == k {
        Ok(i + 1)
    } else {
        Err(i)
    }
}

/// A declaration `name : type` at `i`. The type may be any token.
pub open spec fn spec_parse_dec(t: Seq<SpecToken>, i: int) -> Result<(SpecNode, int), int> {
    if !(0 <= i < t.len()) || !is_id_token(t[i]) {
        Err(i)
    } else if i + 1 >= t.len() || t[i + 1] != punc(':') {
        Err(i + 1)
    } else if i + 2 >= t.len() {
        Err(i + 2)
    } else {
        Ok((SpecNode::Dec(t[i], t[i + 2]), i + 3))
    }
}

/// The measure that orders a block: one that opens with `{` reads a token
/// before anything else.
pub open spec fn prog_rank(t: Seq<SpecToken>, i: int) -> int {
    if 0 <= i < t.len() && t[i] == punc('{') {
        1
    } else {
        4
    }
}

/// A block at `i`: `{ e; e; ... }`, or else a single expression.
pub open spec fn spec_parse_prog(t: Seq<SpecToken>, i: int) -> Result<(SpecNode, int), int>
    decreases t.len() - i, prog_rank(t, i),
{
    if !(0 <= i < t.len()) {
        Err(i)
    } else if t[i] != punc('{') {
        match spec_parse_expression(t, i) {
            Ok((e, j)) => Ok((SpecNode::Prog(seq![e]), j)),
            Err(e) => Err(e),
        }
    } else {
        spec_prog_items(t, i + 1, seq![])
    }
}

/// The rest of a braced block from `j`, with the expressions `acc` read so far.
pub open spec fn spec_prog_items(t: Seq<SpecToken>, j: int, acc: Seq<SpecNode>) -> Result<
    (SpecNode, int),
    int,
>
    decreases t.len() - j, 3int,
{
    if !(0 <= j < t.len()) {
        Err(j)
    } else if t[j] == punc('}') {
        Ok((SpecNode::Prog(acc), j + 1))
    } else if t[j] is Eof {
        Err(j)
    } else {
        match spec_parse_expression(t, j) {
            Ok((e, k)) => match spec_skip(t, k, punc(';')) {
                Ok(k1) => if k1 > j {
                    spec_prog_items(t, k1, acc.push(e))
                } else {
                    Err(k1)
                },
                Err(x) => Err(x),
            },
            Err(x) => Err(x),
        }
    }
}

/// An expression at `i`: a call, a declaration, a conditional or a braced
/// block; anything else is read as nothing, without reading a token.
pub open spec fn spec_parse_expression(t: Seq<SpecToken>, i: int) -> Result<(SpecNode, int), int>
    decreases t.len() - i, 2int,
{
    if !(0 <= i < t.len()) {
        Err(i)
    } else if is_id_token(t[i]) && i + 1 >= t.len() {
        Err(i + 1)
    } else if spec_maybe_call(t, i) {
        spec_parse_call(t, i)
    } else if spec_maybe_dec(t, i) {
        spec_parse_dec(t, i)
    } else if spec_maybe_if(t, i) {
        spec_parse_if(t, i)
    } else if t[i] == punc('{') {
        spec_parse_prog(t, i)
    } else {
        Ok((SpecNode::Null, i))
    }
}

/// A conditional at `i`: `if`, a condition, a block, and optionally `else`
/// followed by a block or by another conditional (read as a block of one
/// expression). Without `else` the else branch is nothing.
pub open spec fn spec_parse_if(t: Seq<SpecToken>, i: int) -> Result<(SpecNode, int), int>
    decreases t.len() - i, 1int,
{
    if !(0 <= i < t.len()) || t[i] != kw_if() {
        Err(i)
    } else {
        match spec_parse_cond(t, i + 1) {
            Err(x) => Err(x),
            Ok((c, j)) => if !(i < j <= t.len()) {
                Err(j)
            } else {
                match spec_parse_prog(t, j) {
                    Err(x) => Err(x),
                    Ok((y, k)) => if !(j <= k < t.len()) {
                        Err(k)
                    } else if t[k] == kw_else() {
                        match spec_parse_prog(t, k + 1) {
                            Ok((z, l)) => Ok((SpecNode::If(Box::new(c), Box::new(y), Box::new(z)), l)),
                            Err(x) => Err(x),
                        }
                    } else {
                        Ok((SpecNode::If(Box::new(c), Box::new(y), Box::new(SpecNode::Null)), k))
                    },
                }
            },
        }
    }
}

/// An operand of a condition at `i`: a call, a name or a number.
pub open spec fn spec_parse_atom(t: Seq<SpecToken>, i: int) -> Result<(SpecNode, int), int> {
    if !(0 <= i < t.len()) {
        Err(i)
    } else if is_id_token(t[i]) && i + 1 >= t.len() {
        Err(i + 1)
    } else if spec_maybe_call(t, i) {
        spec_parse_call(t, i)
    } else {
        match t[i] {
            SpecToken::Id(x) => Ok((SpecNode::ID(x), i + 1)),
            SpecToken::Number(n) => Ok((SpecNode::Literal(SpecLiteral::Num(n)), i + 1)),
            _ => Err(i),
        }
    }
}

/// The rest of a condition from `i`, whose left operand `left` has been read:
/// each operator that binds more tightly than `prec` takes `left` and the
/// operand after it, itself extended by the operators that bind more tightly
/// still; operators of equal strength group to the left.
pub open spec fn spec_maybe_binary(t: Seq<SpecToken>, left: SpecNode, i: int, prec: int) -> Result<
    (SpecNode, int),
    int,
>
    decreases t.len() - i,
{
    if !(0 <= i < t.len()) {
        Ok((left, i))
    } else {
        match spec_op_code(t[i]) {
            Some(k) => if strengths()[k] > prec {
                match spec_parse_atom(t, i + 1) {
                    Err(x) => Err(x),
                    Ok((a, j)) => if !(i < j <= t.len()) {
                        Err(j)
                    } else {
                        match spec_maybe_binary(t, a, j, strengths()[k]) {
                            Err(x) => Err(x),
                            Ok((r, l)) => if !(i < l <= t.len()) {
                                Err(l)
                            } else {
                                spec_maybe_binary(t, SpecNode::Binary(Box::new(left), t[i], Box::new(r)), l, prec)
                            },
                        }
                    },
                }
            } else {
                Ok((left, i))
            },
            None => Ok((left, i)),
        }
    }
}

/// A condition at `i`: operands joined by operators.
pub open spec fn spec_parse_cond(t: Seq<SpecToken>, i: int) -> Result<(SpecNode, int), int> {
    match spec_parse_atom(t, i) {
        Err(x) => Err(x),
        Ok((a, j)) => spec_maybe_binary(t, a, j, 0),
    }
}

/// A call at `i`: a name, then `( a, b, ... )`.
pub open spec fn spec_parse_call(t: Seq<SpecToken>, i: int) -> Result<(SpecNode, int), int>
    decreases t.len() - i, 1int,
{
    if !(0 <= i < t.len()) || !is_id_token(t[i]) {
        Err(i)
    } else {
        match spec_delimited(t, i + 1) {
            Ok((args, j)) => Ok((SpecNode::Call(t[i], args), j)),
            Err(x) => Err(x),
        }
    }
}

/// `( a, b, ... )` at `i`, each item read by `spec_delimited_parse_expression`.
pub open spec fn spec_delimited(t: Seq<SpecToken>, i: int) -> Result<(Seq<SpecNode>, int), int>
    decreases t.len() - i, 4int,
{
    match spec_skip(t, i, punc('(')) {
        Ok(j) => spec_delimited_items(t, j, true, seq![]),
        Err(x) => Err(x),
    }
}

/// The rest of a delimited list from `j`; `first` holds until an item is read.
pub open spec fn spec_delimited_items(
    t: Seq<SpecToken>,
    j: int,
    first: bool,
    acc: Seq<SpecNode>,
) -> Result<(Seq<SpecNode>, int), int>
    decreases t.len() - j, 3int,
{
    if !(0 <= j < t.len()) {
        Err(j)
    } else if t[j] is Eof || t[j] == punc(')') {
        match spec_skip(t, j, punc(')')) {
            Ok(k) => Ok((acc, k)),
            Err(x) => Err(x),
        }
    } else {
        let j1 = if first {
            Ok(j)
        } else {
            spec_skip(t, j, punc(','))
        };
        match j1 {
            Err(x) => Err(x),
            Ok(j1) => if !(0 <= j1 < t.len()) {
                Err(j1)
            } else if t[j1] == punc(')') {
                Ok((acc, j1 + 1))
            } else {
                match spec_delimited_parse_expression(t, j1) {
                    Ok((e, k)) => if j < k <= t.len() {
                        spec_delimited_items(t, k, false, acc.push(e))
                    } else {
                        Err(k)
                    },
                    Err(x) => Err(x),
                }
            },
        }
    }
}

/// An item of a delimited list at `i`: a call or a name.
pub open spec fn spec_delimited_parse_expression(t: Seq<SpecToken>, i: int) -> Result<
    (SpecNode, int),
    int,
>
    decreases t.len() - i, 2int,
{
    if !(0 <= i < t.len()) {
        Err(i)
    } else if is_id_token(t[i]) && i + 1 >= t.len() {
        Err(i + 1)
    } else if spec_maybe_call(t, i) {
        spec_parse_call(t, i)
    } else if is_id_token(t[i]) {
        Ok((SpecNode::ID(t[i]->Id_0), i + 1))
    } else {
        Err(i)
    }
}

/// A whole program from `i`: expressions each followed by `;`, up to the end
/// marker, where the position stays.
pub open spec fn spec_toplevel_items(t: Seq<SpecToken>, i: int, acc: Seq<SpecNode>) -> Result<
    (SpecNode, int),
    int,
>
    decreases t.len() - i,
{
    if !(0 <= i < t.len()) {
        Err(i)
    } else if t[i] is Eof {
        Ok((SpecNode::Prog(acc), i))
    } else {
        match spec_parse_expression(t, i) {
            Ok((e, k)) => match spec_skip(t, k, punc(';')) {
                Ok(k1) => if k1 > i {
                    spec_toplevel_items(t, k1, acc.push(e))
                } else {
                    Err(k1)
                },
                Err(x) => Err(x),
            },
            Err(x) => Err(x),
        }
    }
}

/// A whole program from `i`.
pub open spec fn spec_parse_toplevel(t: Seq<SpecToken>, i: int) -> Result<(SpecNode, int), int> {
    spec_toplevel_items(t, i, seq![])
}


/// The values of a sequence of syntax trees.
pub open spec fn seq_view(s: Seq<Node>) -> Seq<SpecNode> {
    s.map_values(|n: Node| n@)
}

/// The value of the result of a parse: the tree and the position after it, or
/// the position of the failure.
pub open spec fn result_view(r: Result<(Node, usize), ParseError>) -> Result<(SpecNode, int), int> {
    match r {
        Ok((n, j)) => Ok((n@, j as int)),
        Err(e) => Err(e.at as int),
    }
}

/// The value of the result of parsing a list.
pub open spec fn list_result_view(r: Result<(Vec<Node>, usize), ParseError>) -> Result<
    (Seq<SpecNode>, int),
    int,
> {
    match r {
        Ok((v, j)) => Ok((seq_view(v@), j as int)),
        Err(e) => Err(e.at as int),
    }
}

/// The value of the result of reading one expected token.
pub open spec fn skip_result_view(r: Result<usize, ParseError>) -> Result<int, int> {
    match r {
        Ok(j) => Ok(j as int),
        Err(e) => Err(e.at as int),
    }
}

pub proof fn lemma_nodes_view(v: Vec<Node>)
    ensures
        nodes_view(v) == seq_view(v@),
{
    assert(nodes_view(v) =~= seq_view(v@));
}

/// Whether two strings hold the same characters.
pub(crate) fn str_eq(a: &str, b: &str) -> (r: bool)
    ensures
        r == (a@ == b@),
{
    let n = a.unicode_len();
    if n != b.unicode_len() {
        return false;
    }
    let mut i: usize = 0;
    while i < n
        invariant
            n == a@.len(),
            n == b@.len(),
            i <= n,
            forall|k: int| 0 <= k < i ==> a@[k] == b@[k],
        decreases n - i,
    {
        if a.get_char(i) != b.get_char(i) {
            return false;
        }
        i = i + 1;
    }
    assert(a@ =~= b@);
    true
}

/// Whether `t` is the punctuation token made of `c`.
fn is_punc_tok(t: &LexToken, c: char) -> (r: bool)
    ensures
        r == (t@ == punc(c)),
{
    match t {
        LexToken::PUNC(s) => {
            let st = s.as_str();
            if st.unicode_len() == 1 && st.get_char(0) == c {
                assert(st@ =~= seq![c]);
                true
            } else {
                false
            }
        },
        _ => false,
    }
}

/// Whether `t` is the name `w`.
fn is_name_tok(t: &LexToken, w: &str) -> (r: bool)
    ensures
        r == (t@ == SpecToken::Id(w@)),
{
    match t {
        LexToken::ID(s) => str_eq(s.as_str(), w),
        _ => false,
    }
}

/// Whether `t` is the keyword `if`.
fn is_if_tok(t: &LexToken) -> (r: bool)
    ensures
        r == (t@ == kw_if()),
{
    proof {
        reveal_strlit("if");
        assert("if"@ =~= seq!['i', 'f']);
    }
    is_name_tok(t, "if")
}

/// Whether `t` is the keyword `else`.
fn is_else_tok(t: &LexToken) -> (r: bool)
    ensures
        r == (t@ == kw_else()),
{
    proof {
        reveal_strlit("else");
        assert("else"@ =~= seq!['e', 'l', 's', 'e']);
    }
    is_name_tok(t, "else")
}

/// Whether `t` is the end marker.
fn is_eof_tok(t: &LexToken) -> (r: bool)
    ensures
        r == (t@ is Eof),
{
    match t {
        LexToken::EOF => true,
        _ => false,
    }
}

/// Whether two tokens are of the same kind, whatever their text.
pub fn check_discriminant(a: &LexToken, b: &LexToken) -> (r: bool)
    ensures
        r == same_kind(a@, b@),
{
    match (a, b) {
        (LexToken::ID(_), LexToken::ID(_)) => true,
        (LexToken::NUMBER(_), LexToken::NUMBER(_)) => true,
        (LexToken::PUNC(_), LexToken::PUNC(_)) => true,
        (LexToken::OP(_), LexToken::OP(_)) => true,
        (LexToken::SL_COMMENT(_), LexToken::SL_COMMENT(_)) => true,
        (LexToken::ML_COMMENT(_), LexToken::ML_COMMENT(_)) => true,
        (LexToken::EOF, LexToken::EOF) => true,
        (LexToken::ERROR, LexToken::ERROR) => true,
        (LexToken::FN_NULL_TYPE, LexToken::FN_NULL_TYPE) => true,
        _ => false,
    }
}

/// Whether two token values are of the same kind.
pub open spec fn same_kind(a: SpecToken, b: SpecToken) -> bool {
    match (a, b) {
        (SpecToken::Id(_), SpecToken::Id(_)) => true,
        (SpecToken::Number(_), SpecToken::Number(_)) => true,
        (SpecToken::Punc(_), SpecToken::Punc(_)) => true,
        (SpecToken::Op(_), SpecToken::Op(_)) => true,
        (SpecToken::SlComment(_), SpecToken::SlComment(_)) => true,
        (SpecToken::MlComment(_), SpecToken::MlComment(_)) => true,
        (SpecToken::Eof, SpecToken::Eof) => true,
        (SpecToken::Error, SpecToken::Error) => true,
        (SpecToken::FnNullType, SpecToken::FnNullType) => true,
        _ => false,
    }
}

/// Whether `t` is a name.
fn is_id_tok(t: &LexToken) -> (r: bool)
    ensures
        r == is_id_token(t@),
{
    match t {
        LexToken::ID(_) => true,
        _ => false,
    }
}

/// Reads the punctuation token `c` at `i`.
fn skip_at(t: &Vec<LexToken>, i: usize, c: char) -> (r: Result<usize, ParseError>)
    ensures
        skip_result_view(r) == spec_skip(tokens_view(t@), i as int, punc(c)),
{
    if i < t.len() && is_punc_tok(&t[i], c) {
        Ok(i + 1)
    } else {
        Err(ParseError { at: i })
    }
}

fn dec_at(t: &Vec<LexToken>, i: usize) -> (r: Result<(Node, usize), ParseError>)
    ensures
        result_view(r) == spec_parse_dec(tokens_view(t@), i as int),
{
    if i >= t.len() || !is_id_tok(&t[i]) {
        return Err(ParseError { at: i });
    }
    if i + 1 >= t.len() || !is_punc_tok(&t[i + 1], ':') {
        return Err(ParseError { at: i + 1 });
    }
    if i + 2 >= t.len() {
        return Err(ParseError { at: i + 2 });
    }
    let n = Node::Dec(t[i].clone(), t[i + 2].clone());
    Ok((n, i + 3))
}

fn prog_at(t: &Vec<LexToken>, i: usize) -> (r: Result<(Node, usize), ParseError>)
    ensures
        result_view(r) == spec_parse_prog(tokens_view(t@), i as int),
    decreases t@.len() - i, prog_rank(tokens_view(t@), i as int),
{
    let ghost tv = tokens_view(t@);
    if i >= t.len() {
        return Err(ParseError { at: i });
    }
    if !is_punc_tok(&t[i], '{') {
        return match expression_at(t, i) {
            Ok((e, j)) => {
                let mut v: Vec<Node> = Vec::new();
                v.push(e);
                proof {
                    lemma_nodes_view(v);
                    assert(seq_view(v@) =~= seq![e@]);
                }
                Ok((Node::Prog(Box::new(v)), j))
            },
            Err(x) => Err(x),
        };
    }
    let mut acc: Vec<Node> = Vec::new();
    let mut j: usize = i + 1;
    assert(seq_view(acc@) =~= seq![]);
    loop
        invariant
            i < j <= t@.len(),
            tv == tokens_view(t@),
            tv[i as int] == punc('{'),
            spec_parse_prog(tv, i as int) == spec_prog_items(tv, j as int, seq_view(acc@)),
        decreases t@.len() - j,
    {
        if j >= t.len() {
            return Err(ParseError { at: j });
        }
        if is_punc_tok(&t[j], '}') {
            proof {
                lemma_nodes_view(acc);
            }
            return Ok((Node::Prog(Box::new(acc)), j + 1));
        }
        if is_eof_tok(&t[j]) {
            return Err(ParseError { at: j });
        }
        let (e, k) = match expression_at(t, j) {
            Ok(p) => p,
            Err(x) => {
                return Err(x);
            },
        };
        let k1 = match skip_at(t, k, ';') {
            Ok(k1) => k1,
            Err(x) => {
                return Err(x);
            },
        };
        proof {
            lemma_expression_bounds(tv, j as int);
        }
        proof {
            assert(seq_view(acc@.push(e)) =~= seq_view(acc@).push(e@));
        }
        acc.push(e);
        j = k1;
    }
}

fn expression_at(t: &Vec<LexToken>, i: usize) -> (r: Result<(Node, usize), ParseError>)
    ensures
        result_view(r) == spec_parse_expression(tokens_view(t@), i as int),
    decreases t@.len() - i, 2int,
{
    if i >= t.len() {
        return Err(ParseError { at: i });
    }
    if is_id_tok(&t[i]) && i + 1 >= t.len() {
        return Err(ParseError { at: i + 1 });
    }
    if is_id_tok(&t[i]) && is_punc_tok(&t[i + 1], '(') {
        return call_at(t, i);
    }
    if is_id_tok(&t[i]) && is_punc_tok(&t[i + 1], ':') {
        return dec_at(t, i);
    }
    if is_if_tok(&t[i]) {
        return if_at(t, i);
    }
    if is_punc_tok(&t[i], '{') {
        return prog_at(t, i);
    }
    Ok((Node::Null, i))
}

fn if_at(t: &Vec<LexToken>, i: usize) -> (r: Result<(Node, usize), ParseError>)
    ensures
        result_view(r) == spec_parse_if(tokens_view(t@), i as int),
    decreases t@.len() - i, 1int,
{
    if i >= t.len() || !is_if_tok(&t[i]) {
        return Err(ParseError { at: i });
    }
    let (c, j) = match cond_at(t, i + 1) {
        Ok(p) => p,
        Err(x) => {
            return Err(x);
        },
    };
    if !(i < j && j <= t.len()) {
        return Err(ParseError { at: j });
    }
    let (y, k) = match prog_at(t, j) {
        Ok(p) => p,
        Err(x) => {
            return Err(x);
        },
    };
    if !(j <= k && k < t.len()) {
        return Err(ParseError { at: k });
    }
    if is_else_tok(&t[k]) {
        let (z, l) = match prog_at(t, k + 1) {
            Ok(p) => p,
            Err(x) => {
                return Err(x);
            },
        };
        Ok((Node::If(Box::new(c), Box::new(y), Box::new(z)), l))
    } else {
        let n = Node::If(Box::new(c), Box::new(y), Box::new(Node::Null));
        assert(node_view(Node::Null) == SpecNode::Null);
        Ok((n, k))
    }
}

fn atom_at(t: &Vec<LexToken>, i: usize) -> (r: Result<(Node, usize), ParseError>)
    ensures
        result_view(r) == spec_parse_atom(tokens_view(t@), i as int),
{
    if i >= t.len() {
        return Err(ParseError { at: i });
    }
    if is_id_tok(&t[i]) && i + 1 >= t.len() {
        return Err(ParseError { at: i + 1 });
    }
    if is_id_tok(&t[i]) && is_punc_tok(&t[i + 1], '(') {
        return call_at(t, i);
    }
    match &t[i] {
        LexToken::ID(x) => Ok((Node::ID(x.clone()), i + 1)),
        LexToken::NUMBER(n) => Ok((Node::Literal(Literal::Num(n.clone())), i + 1)),
        _ => Err(ParseError { at: i }),
    }
}

fn binary_at(t: &Vec<LexToken>, left: Node, i: usize, prec: usize) -> (r: Result<(Node, usize), ParseError>)
    ensures
        result_view(r) == spec_maybe_binary(tokens_view(t@), left@, i as int, prec as int),
    decreases t@.len() - i,
{
    if i >= t.len() {
        return Ok((left, i));
    }
    let k = match op_code(&t[i]) {
        Some(k) => k,
        None => {
            return Ok((left, i));
        },
    };
    let s = strength(k);
    if s <= prec {
        return Ok((left, i));
    }
    let (a, j) = match atom_at(t, i + 1) {
        Ok(p) => p,
        Err(x) => {
            return Err(x);
        },
    };
    if !(i < j && j <= t.len()) {
        return Err(ParseError { at: j });
    }
    let (rt, l) = match binary_at(t, a, j, s) {
        Ok(p) => p,
        Err(x) => {
            return Err(x);
        },
    };
    if !(i < l && l <= t.len()) {
        return Err(ParseError { at: l });
    }
    let op = t[i].clone();
    binary_at(t, Node::Binary(Box::new(left), op, Box::new(rt)), l, prec)
}

fn cond_at(t: &Vec<LexToken>, i: usize) -> (r: Result<(Node, usize), ParseError>)
    ensures
        result_view(r) == spec_parse_cond(tokens_view(t@), i as int),
{
    match atom_at(t, i) {
        Err(x) => Err(x),
        Ok((a, j)) => binary_at(t, a, j, 0),
    }
}

fn call_at(t: &Vec<LexToken>, i: usize) -> (r: Result<(Node, usize), ParseError>)
    ensures
        result_view(r) == spec_parse_call(tokens_view(t@), i as int),
    decreases t@.len() - i, 1int,
{
    if i >= t.len() || !is_id_tok(&t[i]) {
        return Err(ParseError { at: i });
    }
    let name = t[i].clone();
    match delimited_at(t, i + 1) {
        Ok((args, j)) => {
            proof {
                lemma_nodes_view(args);
            }
            Ok((Node::Call(name, Box::new(args)), j))
        },
        Err(x) => Err(x),
    }
}

fn delimited_at(t: &Vec<LexToken>, i: usize) -> (r: Result<(Vec<Node>, usize), ParseError>)
    ensures
        list_result_view(r) == spec_delimited(tokens_view(t@), i as int),
    decreases t@.len() - i, 4int,
{
    let ghost tv = tokens_view(t@);
    let j0 = match skip_at(t, i, '(') {
        Ok(j0) => j0,
        Err(x) => {
            return Err(x);
        },
    };
    let mut acc: Vec<Node> = Vec::new();
    let mut j: usize = j0;
    let mut first = true;
    assert(seq_view(acc@) =~= seq![]);
    loop
        invariant
            i < j <= t@.len(),
            tv == tokens_view(t@),
            spec_delimited(tv, i as int) == spec_delimited_items(
                tv,
                j as int,
                first,
                seq_view(acc@),
            ),
        decreases t@.len() - j,
    {
        if j >= t.len() {
            return Err(ParseError { at: j });
        }
        if is_eof_tok(&t[j]) || is_punc_tok(&t[j], ')') {
            return match skip_at(t, j, ')') {
                Ok(k) => Ok((acc, k)),
                Err(x) => Err(x),
            };
        }
        let j1 = if first {
            j
        } else {
            match skip_at(t, j, ',') {
                Ok(j1) => j1,
                Err(x) => {
                    return Err(x);
                },
            }
        };
        if j1 >= t.len() {
            return Err(ParseError { at: j1 });
        }
        if is_punc_tok(&t[j1], ')') {
            return Ok((acc, j1 + 1));
        }
        let (e, k) = match delimited_expression_at(t, j1) {
            Ok(p) => p,
            Err(x) => {
                return Err(x);
            },
        };
        proof {
            lemma_delimited_expression_bounds(tv, j1 as int);
        }
        proof {
            assert(seq_view(acc@.push(e)) =~= seq_view(acc@).push(e@));
        }
        acc.push(e);
        j = k;
        first = false;
    }
}

fn delimited_expression_at(t: &Vec<LexToken>, i: usize) -> (r: Result<(Node, usize), ParseError>)
    ensures
        result_view(r) == spec_delimited_parse_expression(tokens_view(t@), i as int),
    decreases t@.len() - i, 2int,
{
    if i >= t.len() {
        return Err(ParseError { at: i });
    }
    if is_id_tok(&t[i]) && i + 1 >= t.len() {
        return Err(ParseError { at: i + 1 });
    }
    if is_id_tok(&t[i]) && is_punc_tok(&t[i + 1], '(') {
        return call_at(t, i);
    }
    match &t[i] {
        LexToken::ID(x) => Ok((Node::ID(x.clone()), i + 1)),
        _ => Err(ParseError { at: i }),
    }
}

fn toplevel_at(t: &Vec<LexToken>, i: usize) -> (r: Result<(Node, usize), ParseError>)
    ensures
        result_view(r) == spec_parse_toplevel(tokens_view(t@), i as int),
{
    let ghost tv = tokens_view(t@);
    let mut acc: Vec<Node> = Vec::new();
    let mut j: usize = i;
    assert(seq_view(acc@) =~= seq![]);
    loop
        invariant
            tv == tokens_view(t@),
            spec_parse_toplevel(tv, i as int) == spec_toplevel_items(tv, j as int, seq_view(acc@)),
        decreases t@.len() - j,
    {
        if j >= t.len() {
            return Err(ParseError { at: j });
        }
        if is_eof_tok(&t[j]) {
            proof {
                lemma_nodes_view(acc);
            }
            return Ok((Node::Prog(Box::new(acc)), j));
        }
        let (e, k) = match expression_at(t, j) {
            Ok(p) => p,
            Err(x) => {
                return Err(x);
            },
        };
        let k1 = match skip_at(t, k, ';') {
            Ok(k1) => k1,
            Err(x) => {
                return Err(x);
            },
        };
        proof {
            lemma_expression_bounds(tv, j as int);
        }
        proof {
            assert(seq_view(acc@.push(e)) =~= seq_view(acc@).push(e@));
        }
        acc.push(e);
        j = k1;
    }
}


/// How a parse step changes the parsing state: the tokens stay; on success the
/// position moves past what was parsed, on failure it stays.
pub open spec fn step_ok(
    before: File,
    after: File,
    r: Result<Node, ParseError>,
    s: Result<(SpecNode, int), int>,
) -> bool {
    &&& after.tokens@ == before.tokens@
    &&& match s {
        Ok((n, j)) => r matches Ok(m) && m@ == n && after.index == j,
        Err(x) => r matches Err(e) && e.at == x && after.index == before.index,
    }
}

/// Applies a parse result to the parsing state.
fn apply(f: &mut File, r: Result<(Node, usize), ParseError>) -> (out: Result<Node, ParseError>)
    ensures
        step_ok(*old(f), *final(f), out, result_view(r)),
{
    match r {
        Ok((n, j)) => {
            f.index = j;
            Ok(n)
        },
        Err(e) => Err(e),
    }
}

/// Whether a declaration (a name followed by `:`) starts at the position.
pub fn maybe_dec(f: &mut File) -> (r: bool)
    requires
        old(f).index < old(f).tokens.len(),
        is_id_token(old(f).tokens@[old(f).index as int]@) ==> old(f).index + 1 < old(f).tokens.len(),
    ensures
        *final(f) == *old(f),
        r == spec_maybe_dec(tokens_view(old(f).tokens@), old(f).index as int),
{
    is_id_tok(&f.tokens[f.index]) && is_punc_tok(&f.tokens[f.index + 1], ':')
}

/// Whether a conditional starts at the position.
pub fn maybe_if(f: &mut File) -> (r: bool)
    requires
        old(f).index < old(f).tokens.len(),
    ensures
        *final(f) == *old(f),
        r == spec_maybe_if(tokens_view(old(f).tokens@), old(f).index as int),
{
    is_if_tok(&f.tokens[f.index])
}

/// Whether a call (a name followed by `(`) starts at the position.
pub fn maybe_call(f: &mut File) -> (r: bool)
    requires
        old(f).index < old(f).tokens.len(),
        is_id_token(old(f).tokens@[old(f).index as int]@) ==> old(f).index + 1 < old(f).tokens.len(),
    ensures
        *final(f) == *old(f),
        r == spec_maybe_call(tokens_view(old(f).tokens@), old(f).index as int),
{
    is_id_tok(&f.tokens[f.index]) && is_punc_tok(&f.tokens[f.index + 1], '(')
}

/// How a successful parse step changes the parsing state: the tokens stay,
/// the tree is the one parsed and the position moves past it.
pub open spec fn parsed(before: File, after: File, n: Node, s: Result<(SpecNode, int), int>) -> bool {
    &&& after.tokens@ == before.tokens@
    &&& s is Ok
    &&& n@ == s->Ok_0.0
    &&& after.index == s->Ok_0.1
}

/// Applies a successful parse result to the parsing state.
fn advance(f: &mut File, r: Result<(Node, usize), ParseError>) -> (n: Node)
    requires
        r is Ok,
    ensures
        parsed(*old(f), *final(f), n, result_view(r)),
{
    match r {
        Ok((n, j)) => {
            f.index = j;
            n
        },
        Err(_) => {
            proof {
                assert(false);
            }
            Node::Null
        },
    }
}

/// Parses a declaration `name : type`; one must stand at the position.
pub fn parse_dec(f: &mut File) -> (r: Node)
    requires
        spec_parse_dec(tokens_view(old(f).tokens@), old(f).index as int) is Ok,
    ensures
        parsed(*old(f), *final(f), r, spec_parse_dec(tokens_view(old(f).tokens@), old(f).index as int)),
{
    let res = dec_at(&f.tokens, f.index);
    advance(f, res)
}

/// Parses a conditional; one must stand at the position.
pub fn parse_if(f: &mut File) -> (r: Node)
    requires
        spec_parse_if(tokens_view(old(f).tokens@), old(f).index as int) is Ok,
    ensures
        parsed(*old(f), *final(f), r, spec_parse_if(tokens_view(old(f).tokens@), old(f).index as int)),
{
    let res = if_at(&f.tokens, f.index);
    advance(f, res)
}

/// Parses a call `name(a, b, ...)`; one must stand at the position.
pub fn parse_call(f: &mut File) -> (r: Node)
    requires
        spec_parse_call(tokens_view(old(f).tokens@), old(f).index as int) is Ok,
    ensures
        parsed(*old(f), *final(f), r, spec_parse_call(tokens_view(old(f).tokens@), old(f).index as int)),
{
    let res = call_at(&f.tokens, f.index);
    advance(f, res)
}

/// Parses an argument of a call, a call or a name; one must stand at the
/// position.
pub fn delimited_parse_expression(f: &mut File) -> (r: Node)
    requires
        spec_delimited_parse_expression(tokens_view(old(f).tokens@), old(f).index as int) is Ok,
    ensures
        parsed(
            *old(f),
            *final(f),
            r,
            spec_delimited_parse_expression(tokens_view(old(f).tokens@), old(f).index as int),
        ),
{
    let res = delimited_expression_at(&f.tokens, f.index);
    advance(f, res)
}

/// Parses an expression, which must parse from the position.
pub fn parse_expression(f: &mut File) -> (r: Node)
    requires
        spec_parse_expression(tokens_view(old(f).tokens@), old(f).index as int) is Ok,
    ensures
        parsed(*old(f), *final(f), r, spec_parse_expression(tokens_view(old(f).tokens@), old(f).index as int)),
{
    let res = expression_at(&f.tokens, f.index);
    advance(f, res)
}

/// Parses a block, which must parse from the position.
pub fn parse_prog(f: &mut File) -> (r: Node)
    requires
        spec_parse_prog(tokens_view(old(f).tokens@), old(f).index as int) is Ok,
    ensures
        parsed(*old(f), *final(f), r, spec_parse_prog(tokens_view(old(f).tokens@), old(f).index as int)),
{
    let res = prog_at(&f.tokens, f.index);
    advance(f, res)
}

/// Parses a whole program, expressions each followed by `;` up to the end
/// marker, which must parse from the position.
pub fn parse_toplevel(f: &mut File) -> (r: Node)
    requires
        spec_parse_toplevel(tokens_view(old(f).tokens@), old(f).index as int) is Ok,
    ensures
        parsed(*old(f), *final(f), r, spec_parse_toplevel(tokens_view(old(f).tokens@), old(f).index as int)),
{
    let res = toplevel_at(&f.tokens, f.index);
    advance(f, res)
}

/// Parses a whole program from the position, or tells where it cannot be
/// parsed.
pub fn parse_program(f: &mut File) -> (r: Result<Node, ParseError>)
    ensures
        step_ok(*old(f), *final(f), r, spec_parse_toplevel(tokens_view(old(f).tokens@), old(f).index as int)),
{
    let res = toplevel_at(&f.tokens, f.index);
    apply(f, res)
}


/// A block parsed from `i` ends at or after `i`, within the tokens.
pub proof fn lemma_prog_bounds(t: Seq<SpecToken>, i: int)
    ensures
        spec_parse_prog(t, i) matches Ok((_, j)) ==> i <= j <= t.len(),
    decreases t.len() - i, prog_rank(t, i),
{
    if 0 <= i < t.len() {
        if t[i] != punc('{') {
            lemma_expression_bounds(t, i);
        } else {
            lemma_prog_items_bounds(t, i + 1, seq![]);
        }
    }
}

/// The rest of a braced block read from `j` ends after `j`, within the tokens.
pub proof fn lemma_prog_items_bounds(t: Seq<SpecToken>, j: int, acc: Seq<SpecNode>)
    ensures
        spec_prog_items(t, j, acc) matches Ok((_, k)) ==> j < k <= t.len(),
    decreases t.len() - j, 3int,
{
    if 0 <= j < t.len() && t[j] != punc('}') && !(t[j] is Eof) {
        lemma_expression_bounds(t, j);
        if let Ok((e, k)) = spec_parse_expression(t, j) {
            if let Ok(k1) = spec_skip(t, k, punc(';')) {
                if k1 > j {
                    lemma_prog_items_bounds(t, k1, acc.push(e));
                }
            }
        }
    }
}

/// An expression parsed from `i` ends at or after `i`, within the tokens.
pub proof fn lemma_expression_bounds(t: Seq<SpecToken>, i: int)
    ensures
        spec_parse_expression(t, i) matches Ok((_, j)) ==> i <= j <= t.len(),
    decreases t.len() - i, 2int,
{
    if 0 <= i < t.len() && !(is_id_token(t[i]) && i + 1 >= t.len()) {
        if spec_maybe_call(t, i) {
            lemma_call_bounds(t, i);
        } else if spec_maybe_dec(t, i) {
        } else if spec_maybe_if(t, i) {
            lemma_if_bounds(t, i);
        } else if t[i] == punc('{') {
            lemma_prog_bounds(t, i);
        }
    }
}

/// A conditional parsed from `i` ends after `i`, within the tokens.
pub proof fn lemma_if_bounds(t: Seq<SpecToken>, i: int)
    ensures
        spec_parse_if(t, i) matches Ok((_, j)) ==> i < j <= t.len(),
    decreases t.len() - i, 1int,
{
    if 0 <= i < t.len() && t[i] == kw_if() {
        if let Ok((c, j)) = spec_parse_cond(t, i + 1) {
            if i < j <= t.len() {
                lemma_prog_bounds(t, j);
                if let Ok((y, k)) = spec_parse_prog(t, j) {
                    if j <= k < t.len() && t[k] == kw_else() {
                        lemma_prog_bounds(t, k + 1);
                    }
                }
            }
        }
    }
}

/// A call parsed from `i` ends after `i`, within the tokens.
pub proof fn lemma_call_bounds(t: Seq<SpecToken>, i: int)
    ensures
        spec_parse_call(t, i) matches Ok((_, j)) ==> i < j <= t.len(),
    decreases t.len() - i, 1int,
{
    if 0 <= i < t.len() && is_id_token(t[i]) {
        lemma_delimited_bounds(t, i + 1);
    }
}

/// A delimited list parsed from `i` ends after `i`, within the tokens.
pub proof fn lemma_delimited_bounds(t: Seq<SpecToken>, i: int)
    ensures
        spec_delimited(t, i) matches Ok((_, j)) ==> i < j <= t.len(),
    decreases t.len() - i, 4int,
{
    if let Ok(j) = spec_skip(t, i, punc('(')) {
        lemma_delimited_items_bounds(t, j, true, seq![]);
    }
}

/// The rest of a delimited list read from `j` ends after `j`, within the tokens.
pub proof fn lemma_delimited_items_bounds(t: Seq<SpecToken>, j: int, first: bool, acc: Seq<SpecNode>)
    ensures
        spec_delimited_items(t, j, first, acc) matches Ok((_, k)) ==> j < k <= t.len(),
    decreases t.len() - j, 3int,
{
    if 0 <= j < t.len() && !(t[j] is Eof || t[j] == punc(')')) {
        let j1 = if first {
            Ok(j)
        } else {
            spec_skip(t, j, punc(','))
        };
        if let Ok(j1) = j1 {
            if 0 <= j1 < t.len() && t[j1] != punc(')') {
                lemma_delimited_expression_bounds(t, j1);
                if let Ok((e, k)) = spec_delimited_parse_expression(t, j1) {
                    if j < k <= t.len() {
                        lemma_delimited_items_bounds(t, k, false, acc.push(e));
                    }
                }
            }
        }
    }
}

/// An argument parsed from `i` ends after `i`, within the tokens.
pub proof fn lemma_delimited_expression_bounds(t: Seq<SpecToken>, i: int)
    ensures
        spec_delimited_parse_expression(t, i) matches Ok((_, j)) ==> i < j <= t.len(),
    decreases t.len() - i, 2int,
{
    if 0 <= i < t.len() && !(is_id_token(t[i]) && i + 1 >= t.len()) && spec_maybe_call(t, i) {
        lemma_call_bounds(t, i);
    }
}

/// A program parsed from `i` ends on the end marker, at or after `i`.
pub proof fn lemma_toplevel_items_bounds(t: Seq<SpecToken>, i: int, acc: Seq<SpecNode>)
    ensures
        spec_toplevel_items(t, i, acc) matches Ok((_, j)) ==> i <= j < t.len() && t[j] is Eof,
    decreases t.len() - i,
{
    if 0 <= i < t.len() && !(t[i] is Eof) {
        lemma_expression_bounds(t, i);
        if let Ok((e, k)) = spec_parse_expression(t, i) {
            if let Ok(k1) = spec_skip(t, k, punc(';')) {
                if k1 > i {
                    lemma_toplevel_items_bounds(t, k1, acc.push(e));
                }
            }
        }
    }
}


/// A block that does not open with `{` is a block of one expression: the
/// expression parsed at the same position, ending where it ends, or failing
/// where it fails.
pub proof fn law_prog_without_brace(t: Seq<SpecToken>, i: int)
    requires
        0 <= i < t.len(),
        t[i] != punc('{'),
    ensures
        spec_parse_prog(t, i) == match spec_parse_expression(t, i) {
            Ok((e, j)) => Ok::<(SpecNode, int), int>((SpecNode::Prog(seq![e]), j)),
            Err(x) => Err(x),
        },
{
}

/// An expression is parsed by what its first tokens show: a call where a name
/// is followed by `(`, else a declaration where a name is followed by `:`,
/// else a conditional at `if`, else a block at `{`; anything else is nothing,
/// with no token read.
pub proof fn law_expression_dispatch(t: Seq<SpecToken>, i: int)
    requires
        0 <= i,
        i + 1 < t.len(),
    ensures
        spec_maybe_call(t, i) ==> spec_parse_expression(t, i) == spec_parse_call(t, i),
        !spec_maybe_call(t, i) && spec_maybe_dec(t, i) ==> spec_parse_expression(t, i) == spec_parse_dec(t, i),
        !spec_maybe_call(t, i) && !spec_maybe_dec(t, i) && spec_maybe_if(t, i) ==> spec_parse_expression(t, i)
            == spec_parse_if(t, i),
        !spec_maybe_call(t, i) && !spec_maybe_dec(t, i) && !spec_maybe_if(t, i) && t[i] == punc('{')
            ==> spec_parse_expression(t, i) == spec_parse_prog(t, i),
        !spec_maybe_call(t, i) && !spec_maybe_dec(t, i) && !spec_maybe_if(t, i) && t[i] != punc('{')
            ==> spec_parse_expression(t, i) == Ok::<(SpecNode, int), int>((SpecNode::Null, i)),
{
}


/// `&&` binds more tightly than `||`: in a condition `x || y && z` over three
/// names, followed by a token that is neither an operator nor `(`, the `&&`
/// takes `y` and `z`, and the `||` takes `x` and that.
pub proof fn law_and_binds_tighter_than_or(t: Seq<SpecToken>, i: int, x: Seq<char>, y: Seq<char>, z: Seq<char>)
    requires
        0 <= i,
        i + 5 < t.len(),
        t[i] == SpecToken::Id(x),
        t[i + 1] == SpecToken::Op(seq!['|', '|']),
        t[i + 2] == SpecToken::Id(y),
        t[i + 3] == SpecToken::Op(seq!['&', '&']),
        t[i + 4] == SpecToken::Id(z),
        !(t[i + 5] is Op),
        t[i + 5] != punc('('),
    ensures
        spec_parse_cond(t, i) == Ok::<(SpecNode, int), int>(
            (
                SpecNode::Binary(
                    Box::new(SpecNode::ID(x)),
                    t[i + 1],
                    Box::new(SpecNode::Binary(Box::new(SpecNode::ID(y)), t[i + 3], Box::new(SpecNode::ID(z)))),
                ),
                i + 5,
            ),
        ),
{
    assert(ops()[0] != seq!['|', '|']);
    assert(ops()[0] != seq!['&', '&']);
    assert(ops()[1] =~= seq!['|', '|']);
    assert(ops()[1] != seq!['&', '&']);
    assert(ops()[2] =~= seq!['&', '&']);
    assert(ops().len() == 14);
    assert(op_index_from(seq!['|', '|'], 1) == Some(1int));
    assert(op_index_from(seq!['|', '|'], 0) == Some(1int));
    assert(op_index_from(seq!['&', '&'], 2) == Some(2int));
    assert(ops()[1] != seq!['&', '&']);
    assert(op_index_from(seq!['&', '&'], 1) == Some(2int));
    assert(op_index_from(seq!['&', '&'], 0) == Some(2int));
    assert(spec_op_code(t[i + 1]) == Some(1int));
    assert(spec_op_code(t[i + 3]) == Some(2int));
    assert(strengths()[1] == 2 && strengths()[2] == 3);
    let zz = SpecNode::ID(z);
    assert(spec_parse_atom(t, i + 4) == Ok::<(SpecNode, int), int>((zz, i + 5)));
    assert(spec_maybe_binary(t, zz, i + 5, 3) == Ok::<(SpecNode, int), int>((zz, i + 5)));
    let yz = SpecNode::Binary(Box::new(SpecNode::ID(y)), t[i + 3], Box::new(zz));
    assert(spec_maybe_binary(t, yz, i + 5, 2) == Ok::<(SpecNode, int), int>((yz, i + 5)));
    assert(spec_maybe_binary(t, SpecNode::ID(y), i + 3, 2) == Ok::<(SpecNode, int), int>((yz, i + 5)));
    let all = SpecNode::Binary(Box::new(SpecNode::ID(x)), t[i + 1], Box::new(yz));
    assert(spec_maybe_binary(t, all, i + 5, 0) == Ok::<(SpecNode, int), int>((all, i + 5)));
}


/// The binding level of operator number `k`, from loosest to tightest: `=`;
/// `||`; `&&`; the comparisons `< > <= >= == !=`; `+ -`; `* / %`.
pub open spec fn binding_level(k: int) -> int {
    if k == 0 {
        0
    } else if k == 1 {
        1
    } else if k == 2 {
        2
    } else if k <= 8 {
        3
    } else if k <= 10 {
        4
    } else {
        5
    }
}

proof fn lemma_strength_level(k: int)
    requires
        0 <= k < 14,
    ensures
        strengths()[k] >= 1,
        binding_level(k) == 0 ==> strengths()[k] == 1,
        binding_level(k) == 1 ==> strengths()[k] == 2,
        binding_level(k) == 2 ==> strengths()[k] == 3,
        binding_level(k) == 3 ==> strengths()[k] == 7,
        binding_level(k) == 4 ==> strengths()[k] == 10,
        binding_level(k) == 5 ==> strengths()[k] == 20,
{
    if k == 0 {
    } else if k == 1 {
    } else if k == 2 {
    } else if k == 3 {
    } else if k == 4 {
    } else if k == 5 {
    } else if k == 6 {
    } else if k == 7 {
    } else if k == 8 {
    } else if k == 9 {
    } else if k == 10 {
    } else if k == 11 {
    } else if k == 12 {
    } else {
    }
}

proof fn lemma_op_index_range(w: Seq<char>, i: int)
    requires
        0 <= i,
    ensures
        op_index_from(w, i) matches Some(k) ==> i <= k < 14,
    decreases ops().len() - i,
{
    if 0 <= i < ops().len() && ops()[i] != w {
        lemma_op_index_range(w, i + 1);
    }
}

/// How two operators group: in `x o1 y o2 z` over three names, followed by
/// a token that is neither an operator nor `(`, the second operator takes
/// `y` and `z` first where it binds more tightly than the first; otherwise
/// the first takes `x` and `y` first, so operators of one level group to the
/// left.
pub proof fn law_operator_grouping(t: Seq<SpecToken>, i: int, x: Seq<char>, y: Seq<char>, z: Seq<char>)
    requires
        0 <= i,
        i + 5 < t.len(),
        t[i] == SpecToken::Id(x),
        spec_op_code(t[i + 1]) is Some,
        t[i + 2] == SpecToken::Id(y),
        spec_op_code(t[i + 3]) is Some,
        t[i + 4] == SpecToken::Id(z),
        !(t[i + 5] is Op),
        t[i + 5] != punc('('),
    ensures
        ({
            let (k1, k2) = (spec_op_code(t[i + 1])->0, spec_op_code(t[i + 3])->0);
            let (xx, yy, zz) = (SpecNode::ID(x), SpecNode::ID(y), SpecNode::ID(z));
            if binding_level(k2) > binding_level(k1) {
                spec_parse_cond(t, i) == Ok::<(SpecNode, int), int>(
                    (
                        SpecNode::Binary(
                            Box::new(xx),
                            t[i + 1],
                            Box::new(SpecNode::Binary(Box::new(yy), t[i + 3], Box::new(zz))),
                        ),
                        i + 5,
                    ),
                )
            } else {
                spec_parse_cond(t, i) == Ok::<(SpecNode, int), int>(
                    (
                        SpecNode::Binary(
                            Box::new(SpecNode::Binary(Box::new(xx), t[i + 1], Box::new(yy))),
                            t[i + 3],
                            Box::new(zz),
                        ),
                        i + 5,
                    ),
                )
            }
        }),
{
    let k1 = spec_op_code(t[i + 1])->0;
    let k2 = spec_op_code(t[i + 3])->0;
    lemma_op_index_range(t[i + 1]->Op_0, 0);
    lemma_op_index_range(t[i + 3]->Op_0, 0);
    lemma_strength_level(k1);
    lemma_strength_level(k2);
    let s1 = strengths()[k1];
    let s2 = strengths()[k2];
    let (xx, yy, zz) = (SpecNode::ID(x), SpecNode::ID(y), SpecNode::ID(z));
    assert(spec_op_code(t[i + 5]) is None);
    assert(spec_parse_atom(t, i) == Ok::<(SpecNode, int), int>((xx, i + 1)));
    assert(spec_parse_atom(t, i + 2) == Ok::<(SpecNode, int), int>((yy, i + 3)));
    assert(spec_parse_atom(t, i + 4) == Ok::<(SpecNode, int), int>((zz, i + 5)));
    assert(spec_maybe_binary(t, zz, i + 5, s2) == Ok::<(SpecNode, int), int>((zz, i + 5)));
    if s2 > s1 {
        let yz = SpecNode::Binary(Box::new(yy), t[i + 3], Box::new(zz));
        assert(spec_maybe_binary(t, yz, i + 5, s1) == Ok::<(SpecNode, int), int>((yz, i + 5)));
        assert(spec_maybe_binary(t, yy, i + 3, s1) == Ok::<(SpecNode, int), int>((yz, i + 5)));
        let all = SpecNode::Binary(Box::new(xx), t[i + 1], Box::new(yz));
        assert(spec_maybe_binary(t, all, i + 5, 0) == Ok::<(SpecNode, int), int>((all, i + 5)));
    } else {
        assert(spec_maybe_binary(t, yy, i + 3, s1) == Ok::<(SpecNode, int), int>((yy, i + 3)));
        let xy = SpecNode::Binary(Box::new(xx), t[i + 1], Box::new(yy));
        let all = SpecNode::Binary(Box::new(xy), t[i + 3], Box::new(zz));
        assert(spec_maybe_binary(t, all, i + 5, 0) == Ok::<(SpecNode, int), int>((all, i + 5)));
        assert(spec_maybe_binary(t, xy, i + 3, 0) == Ok::<(SpecNode, int), int>((all, i + 5)));
    }
}

} // verus!
