use vstd::prelude::*;

use crate::env::{
    BoolVals, EnvError, EnvParent, Envir, F64Vals, FnContent, SpecFn, SpecValue, StrVals,
    TypeContent, env_def, env_get, env_set, fenv_def, fenv_get, initial_content, read_var, type_of_name, is_undef,
    write_var, declare_var, type_named, ReadOutcome,
};
use crate::lexer::{LexToken, SpecToken};
use vstd::string::StringExecFns;
use vstd::hash_map::StringHashMap;
use crate::parser::{
    Literal, Node, SpecLiteral, SpecNode, nodes_view, seq_view, str_eq, lemma_nodes_view, ops, op_code,
    spec_op_code,
};

verus! {

/// Why evaluation stopped with an error.
#[derive(Debug)]
pub enum EvalError {
    /// A scope operation failed.
    Env(EnvError),
    /// An operand, or a printed value, holds no value.
    UndefinedOperand,
    /// An operand of an arithmetic or comparison operator is not a number.
    NotANumber,
    /// An operand of `||` or `&&` is not a boolean.
    NotABoolean,
    /// The operator is not one of the known ones.
    UnknownOperator,
    /// The condition of an `if` holds no value.
    UndefinedCondition,
    /// The condition of an `if` is not a boolean.
    NonBooleanCondition,
    /// `print` was given something other than a number or a string.
    CannotPrint,
    /// The left side of `=` is not a name.
    AssignToNonName,
    /// A declaration whose name or type is not a name.
    BadDeclaration,
    /// `print` was called without an argument.
    MissingArgument,
    /// A function was called with the wrong number of arguments.
    WrongArgumentCount,
    /// A parameter of a function definition is not a declaration.
    NotADeclaration,
    /// The name of a called or defined function is not a name.
    InvalidFunctionName,
    /// The result type of a function definition is not a name.
    InvalidFunctionType,
    /// A `return` stands somewhere other than directly in a function body.
    UnhandledReturn,
    /// The answer handed to the machine is not the one it waits for.
    UnexpectedEvent,
}

/// The mathematical value of a scope error.
pub enum EnvErrorView {
    UndefinedVariable(Seq<char>),
    UnsetVariable(Seq<char>),
    UndefinedFunction(Seq<char>),
    UnknownType(Seq<char>),
}

/// The mathematical value of an evaluation error.
pub enum ErrorView {
    Env(EnvErrorView),
    UndefinedOperand,
    NotANumber,
    NotABoolean,
    UnknownOperator,
    UndefinedCondition,
    NonBooleanCondition,
    CannotPrint,
    AssignToNonName,
    BadDeclaration,
    MissingArgument,
    WrongArgumentCount,
    NotADeclaration,
    InvalidFunctionName,
    InvalidFunctionType,
    UnhandledReturn,
    UnexpectedEvent,
}

impl View for EnvError {
    type V = EnvErrorView;

    open spec fn view(&self) -> EnvErrorView {
        match self {
            EnvError::UndefinedVariable(s) => EnvErrorView::UndefinedVariable(s@),
            EnvError::UnsetVariable(s) => EnvErrorView::UnsetVariable(s@),
            EnvError::UndefinedFunction(s) => EnvErrorView::UndefinedFunction(s@),
            EnvError::UnknownType(s) => EnvErrorView::UnknownType(s@),
        }
    }
}

impl View for EvalError {
    type V = ErrorView;

    open spec fn view(&self) -> ErrorView {
        match self {
            EvalError::Env(e) => ErrorView::Env(e@),
            EvalError::UndefinedOperand => ErrorView::UndefinedOperand,
            EvalError::NotANumber => ErrorView::NotANumber,
            EvalError::NotABoolean => ErrorView::NotABoolean,
            EvalError::UnknownOperator => ErrorView::UnknownOperator,
            EvalError::UndefinedCondition => ErrorView::UndefinedCondition,
            EvalError::NonBooleanCondition => ErrorView::NonBooleanCondition,
            EvalError::CannotPrint => ErrorView::CannotPrint,
            EvalError::AssignToNonName => ErrorView::AssignToNonName,
            EvalError::BadDeclaration => ErrorView::BadDeclaration,
            EvalError::MissingArgument => ErrorView::MissingArgument,
            EvalError::WrongArgumentCount => ErrorView::WrongArgumentCount,
            EvalError::NotADeclaration => ErrorView::NotADeclaration,
            EvalError::InvalidFunctionName => ErrorView::InvalidFunctionName,
            EvalError::InvalidFunctionType => ErrorView::InvalidFunctionType,
            EvalError::UnhandledReturn => ErrorView::UnhandledReturn,
            EvalError::UnexpectedEvent => ErrorView::UnexpectedEvent,
        }
    }
}

/// The number held by an operand, or why there is none.
pub open spec fn spec_chk_num(v: SpecValue) -> Result<u64, ErrorView> {
    match v {
        SpecValue::Num(Some(x)) => Ok(x),
        SpecValue::Num(None) => Err(ErrorView::UndefinedOperand),
        _ => Err(ErrorView::NotANumber),
    }
}

/// The boolean held by an operand, or why there is none.
pub open spec fn spec_chk_bool(v: SpecValue) -> Result<bool, ErrorView> {
    match v {
        SpecValue::Bool(Some(b)) => Ok(b),
        SpecValue::Bool(None) => Err(ErrorView::UndefinedOperand),
        _ => Err(ErrorView::NotABoolean),
    }
}

/// What applying an operator gives: a value, or the numeric operation that
/// is left to compute on the bit patterns of two numbers (a comparison for
/// codes 3 to 8, which gives a boolean; arithmetic for 9 to 13, which gives
/// a number).
#[derive(Debug)]
pub enum OpOutcome {
    Value(TypeContent),
    Numeric(usize, u64, u64),
}

/// The mathematical value of an operator's outcome.
pub enum SpecOpOutcome {
    Value(SpecValue),
    Numeric(int, u64, u64),
}

impl View for OpOutcome {
    type V = SpecOpOutcome;

    open spec fn view(&self) -> SpecOpOutcome {
        match self {
            OpOutcome::Value(v) => SpecOpOutcome::Value(v@),
            OpOutcome::Numeric(op, a, b) => SpecOpOutcome::Numeric(*op as int, *a, *b),
        }
    }
}

/// Applying operator `op` to two operands. `||` and `&&` look at the right
/// operand only where the left one does not decide; the numeric operators
/// check the left operand, then the right one.
pub open spec fn spec_apply_op(op: int, left: SpecValue, right: SpecValue) -> Result<
    SpecOpOutcome,
    ErrorView,
> {
    if op == 1 {
        match spec_chk_bool(left) {
            Err(e) => Err(e),
            Ok(true) => Ok(SpecOpOutcome::Value(SpecValue::Bool(Some(true)))),
            Ok(false) => match spec_chk_bool(right) {
                Err(e) => Err(e),
                Ok(b) => Ok(SpecOpOutcome::Value(SpecValue::Bool(Some(b)))),
            },
        }
    } else if op == 2 {
        match spec_chk_bool(left) {
            Err(e) => Err(e),
            Ok(false) => Ok(SpecOpOutcome::Value(SpecValue::Bool(Some(false)))),
            Ok(true) => match spec_chk_bool(right) {
                Err(e) => Err(e),
                Ok(b) => Ok(SpecOpOutcome::Value(SpecValue::Bool(Some(b)))),
            },
        }
    } else if 3 <= op <= 13 {
        match spec_chk_num(left) {
            Err(e) => Err(e),
            Ok(a) => match spec_chk_num(right) {
                Err(e) => Err(e),
                Ok(b) => Ok(SpecOpOutcome::Numeric(op, a, b)),
            },
        }
    } else {
        Err(ErrorView::UnknownOperator)
    }
}

/// The number held by an operand, which must be a number with a value.
pub fn chk_num(val: TypeContent) -> (r: u64)
    requires
        spec_chk_num(val@) is Ok,
    ensures
        spec_chk_num(val@) == Ok::<u64, ErrorView>(r),
{
    match val {
        TypeContent::F64(F64Vals::Defined(y)) => y,
        _ => {
            proof {
                assert(false);
            }
            0
        },
    }
}

/// The boolean held by an operand, which must be a boolean with a value.
pub fn chk_bool(val: TypeContent) -> (r: bool)
    requires
        spec_chk_bool(val@) is Ok,
    ensures
        spec_chk_bool(val@) == Ok::<bool, ErrorView>(r),
{
    match val {
        TypeContent::bool(BoolVals::Defined(y)) => y,
        _ => {
            proof {
                assert(false);
            }
            false
        },
    }
}

/// Applies operator `op` (see `ops()`) to two operands on which it is defined.
pub fn apply_op(op: usize, left: TypeContent, right: TypeContent) -> (r: OpOutcome)
    requires
        spec_apply_op(op as int, left@, right@) is Ok,
    ensures
        spec_apply_op(op as int, left@, right@) == Ok::<SpecOpOutcome, ErrorView>(r@),
{
    if op == 1 {
        if chk_bool(left) {
            OpOutcome::Value(TypeContent::bool(BoolVals::Defined(true)))
        } else {
            OpOutcome::Value(TypeContent::bool(BoolVals::Defined(chk_bool(right))))
        }
    } else if op == 2 {
        if !chk_bool(left) {
            OpOutcome::Value(TypeContent::bool(BoolVals::Defined(false)))
        } else {
            OpOutcome::Value(TypeContent::bool(BoolVals::Defined(chk_bool(right))))
        }
    } else {
        let a = chk_num(left);
        let b = chk_num(right);
        OpOutcome::Numeric(op, a, b)
    }
}

/// Why operator `op` cannot be applied to the two operands, if it cannot.
pub fn op_check(op: usize, left: &TypeContent, right: &TypeContent) -> (r: Option<EvalError>)
    ensures
        match spec_apply_op(op as int, left@, right@) {
            Ok(_) => r is None,
            Err(e) => r matches Some(f) && f@ == e,
        },
{
    if op == 1 || op == 2 {
        let a = match left {
            TypeContent::bool(BoolVals::Defined(a)) => *a,
            TypeContent::bool(BoolVals::Undefined) => {
                return Some(EvalError::UndefinedOperand);
            },
            _ => {
                return Some(EvalError::NotABoolean);
            },
        };
        if (op == 1 && a) || (op == 2 && !a) {
            return None;
        }
        match right {
            TypeContent::bool(BoolVals::Defined(_)) => None,
            TypeContent::bool(BoolVals::Undefined) => Some(EvalError::UndefinedOperand),
            _ => Some(EvalError::NotABoolean),
        }
    } else if 3 <= op && op <= 13 {
        match left {
            TypeContent::F64(F64Vals::Defined(_)) => {},
            TypeContent::F64(F64Vals::Undefined) => {
                return Some(EvalError::UndefinedOperand);
            },
            _ => {
                return Some(EvalError::NotANumber);
            },
        }
        match right {
            TypeContent::F64(F64Vals::Defined(_)) => None,
            TypeContent::F64(F64Vals::Undefined) => Some(EvalError::UndefinedOperand),
            _ => Some(EvalError::NotANumber),
        }
    } else {
        Some(EvalError::UnknownOperator)
    }
}

/// A pending step of evaluation: what to do with the value of the expression
/// being evaluated.
#[derive(Debug)]
pub enum Frame {
    /// Run the items of a block from the given position.
    Block(Vec<Node>, usize),
    /// Store the value in the named variable.
    Assign(String),
    /// Evaluate the right operand, then apply the operator.
    LeftBinary(Node, usize),
    /// Apply the operator to the held left operand and the value.
    RightBinary(TypeContent, usize),
    /// Run the first branch if the value is true, else the second.
    If(Node, Node),
    /// Print the value.
    Print,
    /// Collect the value as the next argument of a call to the function.
    Params(FnContent, Vec<Node>, Vec<TypeContent>),
    /// Run the items of a called function's body from the given position.
    Body(Vec<Node>, usize),
    /// Return the value from the current call.
    Returning,
}

/// What the machine is doing.
#[derive(Debug)]
pub enum Mode {
    /// Evaluate this expression next.
    Eval(Node),
    /// Hand this value to the innermost pending frame.
    Value(TypeContent),
    /// Wait for the number computed by a numeric operation.
    AwaitNumber,
    /// Wait for the boolean computed by a comparison.
    AwaitTruth,
    /// The program has run to its end with this value.
    Done(TypeContent),
    /// The program stopped with an error.
    Failed(EvalError),
}

/// What is handed to the machine for a step.
#[derive(Debug, Clone, Copy, PartialEq, Eq, Structural)]
pub enum Event {
    /// Nothing to report.
    Resume,
    /// The bit pattern of the number that a requested operation computed.
    Number(u64),
    /// The boolean that a requested comparison computed.
    Truth(bool),
}

/// What the machine asks of its runner after a step.
#[derive(Debug)]
pub enum Action {
    /// Step again.
    Continue,
    /// Compute operator `op` (codes 3 to 13 of `ops()`) on the double-precision
    /// numbers with these bit patterns, and step with the result: a `Truth`
    /// for a comparison, a `Number` for arithmetic.
    Compute(usize, u64, u64),
    /// Read the numeral as a double-precision number, and step with its bit
    /// pattern as a `Number`.
    ReadNumber(String),
    /// Print the number with this bit pattern, then step again.
    PrintNum(u64),
    /// Print the string, then step again.
    PrintStr(String),
    /// The program has finished with this value.
    Finished(TypeContent),
    /// The program has stopped with this error.
    Failed(EvalError),
}

/// The mathematical value of a scope: its variables and functions.
pub struct ScopeView {
    pub vars: Map<Seq<char>, SpecValue>,
    pub fns: Map<Seq<char>, SpecFn>,
}

/// The mathematical value of a frame.
pub enum FrameView {
    Block(Seq<SpecNode>, int),
    Assign(Seq<char>),
    LeftBinary(SpecNode, int),
    RightBinary(SpecValue, int),
    If(SpecNode, SpecNode),
    Print,
    Params(SpecFn, Seq<SpecNode>, Seq<SpecValue>),
    Body(Seq<SpecNode>, int),
    Returning,
}

/// The mathematical value of a mode.
pub enum ModeView {
    Eval(SpecNode),
    Value(SpecValue),
    AwaitNumber,
    AwaitTruth,
    Done(SpecValue),
    Failed(ErrorView),
}

/// The mathematical value of an action.
pub enum ActionView {
    Continue,
    Compute(int, u64, u64),
    ReadNumber(Seq<char>),
    PrintNum(u64),
    PrintStr(Seq<char>),
    Finished(SpecValue),
    Failed(ErrorView),
}

/// The mathematical value of the machine: its scopes, innermost last; its
/// pending frames, innermost last; and its mode.
pub struct MachineView {
    pub scopes: Seq<ScopeView>,
    pub frames: Seq<FrameView>,
    pub mode: ModeView,
}

/// The value of a scope.
pub open spec fn scope_view(e: Envir) -> ScopeView {
    ScopeView { vars: e.vars@.map_values(|v: TypeContent| v@), fns: e.fns@.map_values(|f: FnContent| f@) }
}

/// The values of a list of scopes.
pub open spec fn scopes_view(s: Seq<Envir<'static>>) -> Seq<ScopeView> {
    s.map_values(|e: Envir<'static>| scope_view(e))
}

/// The values of a list of values.
pub open spec fn values_view(s: Seq<TypeContent>) -> Seq<SpecValue> {
    s.map_values(|v: TypeContent| v@)
}

/// The value of a frame.
pub open spec fn frame_view(f: Frame) -> FrameView {
    match f {
        Frame::Block(items, k) => FrameView::Block(seq_view(items@), k as int),
        Frame::Assign(name) => FrameView::Assign(name@),
        Frame::LeftBinary(r, op) => FrameView::LeftBinary(r@, op as int),
        Frame::RightBinary(l, op) => FrameView::RightBinary(l@, op as int),
        Frame::If(t, e) => FrameView::If(t@, e@),
        Frame::Print => FrameView::Print,
        Frame::Params(func, params, vals) => FrameView::Params(
            func@,
            seq_view(params@),
            values_view(vals@),
        ),
        Frame::Body(items, k) => FrameView::Body(seq_view(items@), k as int),
        Frame::Returning => FrameView::Returning,
    }
}

/// The values of a list of frames.
pub open spec fn frames_view(s: Seq<Frame>) -> Seq<FrameView> {
    s.map_values(|f: Frame| frame_view(f))
}

impl View for Mode {
    type V = ModeView;

    open spec fn view(&self) -> ModeView {
        match self {
            Mode::Eval(n) => ModeView::Eval(n@),
            Mode::Value(v) => ModeView::Value(v@),
            Mode::AwaitNumber => ModeView::AwaitNumber,
            Mode::AwaitTruth => ModeView::AwaitTruth,
            Mode::Done(v) => ModeView::Done(v@),
            Mode::Failed(e) => ModeView::Failed(e@),
        }
    }
}

impl View for Action {
    type V = ActionView;

    open spec fn view(&self) -> ActionView {
        match self {
            Action::Continue => ActionView::Continue,
            Action::Compute(op, a, b) => ActionView::Compute(*op as int, *a, *b),
            Action::ReadNumber(t) => ActionView::ReadNumber(t@),
            Action::PrintNum(x) => ActionView::PrintNum(*x),
            Action::PrintStr(s) => ActionView::PrintStr(s@),
            Action::Finished(v) => ActionView::Finished(v@),
            Action::Failed(e) => ActionView::Failed(e@),
        }
    }
}

/// The result of one step on the parts of the machine.
pub type Outcome = (Vec<Envir<'static>>, Vec<Frame>, Mode, Action);

/// The value of the result of a step.
pub open spec fn outcome_view(r: Outcome) -> (MachineView, ActionView) {
    (
        MachineView { scopes: scopes_view(r.0@), frames: frames_view(r.1@), mode: r.2@ },
        r.3@,
    )
}

/// The machine after a step with `mode`, asking for `a`.
pub open spec fn go(sc: Seq<ScopeView>, fr: Seq<FrameView>, mode: ModeView, a: ActionView) -> (
    MachineView,
    ActionView,
) {
    (MachineView { scopes: sc, frames: fr, mode: mode }, a)
}

/// The machine after a step that leaves nothing for the runner to do.
pub open spec fn next(sc: Seq<ScopeView>, fr: Seq<FrameView>, mode: ModeView) -> (
    MachineView,
    ActionView,
) {
    go(sc, fr, mode, ActionView::Continue)
}

/// The machine after a step that fails with `e`.
pub open spec fn fail(sc: Seq<ScopeView>, fr: Seq<FrameView>, e: ErrorView) -> (
    MachineView,
    ActionView,
) {
    go(sc, fr, ModeView::Failed(e), ActionView::Failed(e))
}

/// The scopes with the innermost one replaced.
pub open spec fn with_top(sc: Seq<ScopeView>, top: ScopeView) -> Seq<ScopeView> {
    sc.drop_last().push(top)
}

/// What reading a variable gives, on values.
pub enum Lookup {
    Found(SpecValue),
    Undeclared,
    Unset,
}

/// Whether a value is missing.
pub open spec fn value_undef(v: SpecValue) -> bool {
    match v {
        SpecValue::Num(x) => x is None,
        SpecValue::Bool(x) => x is None,
        SpecValue::Str(x) => x is None,
        SpecValue::Void => true,
    }
}

/// Reading `name` from `vars`.
pub open spec fn lookup(vars: Map<Seq<char>, SpecValue>, name: Seq<char>) -> Lookup {
    if !vars.contains_key(name) {
        Lookup::Undeclared
    } else if value_undef(vars[name]) {
        Lookup::Unset
    } else {
        Lookup::Found(vars[name])
    }
}

/// Writing `v` to the declared variable `name` of `vars`.
pub open spec fn assign(vars: Map<Seq<char>, SpecValue>, name: Seq<char>, v: SpecValue) -> Option<
    Map<Seq<char>, SpecValue>,
> {
    if vars.contains_key(name) {
        Some(vars.insert(name, v))
    } else {
        None
    }
}

/// Declaring `name` in `vars` with the type named `typ`.
pub open spec fn declare(vars: Map<Seq<char>, SpecValue>, name: Seq<char>, typ: Seq<char>) -> Option<
    Map<Seq<char>, SpecValue>,
> {
    match type_named(typ) {
        Some(t) => Some(vars.insert(name, initial_content(t)@)),
        None => None,
    }
}

/// The value of a literal other than a number.
pub open spec fn literal_value(l: SpecLiteral) -> SpecValue {
    match l {
        SpecLiteral::Num(_) => SpecValue::Void,
        SpecLiteral::Bool(b) => SpecValue::Bool(Some(b)),
        SpecLiteral::Str(s) => SpecValue::Str(Some(s)),
        SpecLiteral::Undef => SpecValue::Void,
        SpecLiteral::Nothing => SpecValue::Void,
    }
}

/// The name of the built-in printing function.
pub open spec fn print_name() -> Seq<char> {
    seq!['p', 'r', 'i', 'n', 't']
}

/// Whether every parameter of a definition is a declaration.
pub open spec fn all_decs(args: Seq<SpecNode>) -> bool {
    forall|i: int| 0 <= i < args.len() ==> (#[trigger] args[i]) is Dec
}

/// The items run for a function body: those of a block, or the body alone.
pub open spec fn body_items(body: SpecNode) -> Seq<SpecNode> {
    match body {
        SpecNode::Prog(items) => items,
        _ => seq![body],
    }
}

/// The variables of a new call after declaring its first `k` parameters, or
/// why a declaration failed.
pub open spec fn declare_params(args: Seq<SpecNode>, k: int) -> Result<
    Map<Seq<char>, SpecValue>,
    ErrorView,
>
    decreases k,
{
    if k <= 0 {
        Ok(Map::empty())
    } else {
        match declare_params(args, k - 1) {
            Err(e) => Err(e),
            Ok(m) => match args[k - 1] {
                SpecNode::Dec(SpecToken::Id(x), SpecToken::Id(y)) => match declare(m, x, y) {
                    Some(m2) => Ok(m2),
                    None => Err(ErrorView::Env(EnvErrorView::UnknownType(y))),
                },
                _ => Err(ErrorView::BadDeclaration),
            },
        }
    }
}

/// `m` after the first `k` parameters are given their argument values.
pub open spec fn assign_params(
    args: Seq<SpecNode>,
    vals: Seq<SpecValue>,
    k: int,
    m: Map<Seq<char>, SpecValue>,
) -> Map<Seq<char>, SpecValue>
    decreases k,
{
    if k <= 0 {
        m
    } else {
        let m1 = assign_params(args, vals, k - 1, m);
        match args[k - 1] {
            SpecNode::Dec(SpecToken::Id(x), _) => m1.insert(x, vals[k - 1]),
            _ => m1,
        }
    }
}

/// Entering a call of `f` with argument values `vals`: a new scope holds the
/// declared parameters with their values, and the body starts.
pub open spec fn spec_enter(sc: Seq<ScopeView>, fr: Seq<FrameView>, f: SpecFn, vals: Seq<SpecValue>) -> (
    MachineView,
    ActionView,
) {
    match declare_params(f.args, f.args.len() as int) {
        Ok(m) => next(
            sc.push(ScopeView { vars: assign_params(f.args, vals, f.args.len() as int, m), fns: Map::empty() }),
            fr.push(FrameView::Body(body_items(f.body), 0)),
            ModeView::Value(SpecValue::Void),
        ),
        Err(e) => fail(sc, fr, e),
    }
}

/// Defining function `x` with result type named `y`.
pub open spec fn spec_define(
    sc: Seq<ScopeView>,
    fr: Seq<FrameView>,
    x: Seq<char>,
    y: Seq<char>,
    args: Seq<SpecNode>,
    body: SpecNode,
) -> (MachineView, ActionView) {
    let top = sc.last();
    match type_named(y) {
        Some(t) => next(
            with_top(sc, ScopeView { vars: top.vars, fns: top.fns.insert(x, SpecFn { args: args, typ: t, body: body }) }),
            fr,
            ModeView::Value(SpecValue::Void),
        ),
        None => fail(sc, fr, ErrorView::Env(EnvErrorView::UnknownType(y))),
    }
}

/// One step on an expression, in the innermost scope.
pub open spec fn spec_eval(sc: Seq<ScopeView>, fr: Seq<FrameView>, n: SpecNode) -> (
    MachineView,
    ActionView,
) {
    let top = sc.last();
    match n {
        SpecNode::Literal(l) => match l {
            SpecLiteral::Num(t) => go(sc, fr, ModeView::AwaitNumber, ActionView::ReadNumber(t)),
            _ => next(sc, fr, ModeView::Value(literal_value(l))),
        },
        SpecNode::Prog(items) => if items.len() == 0 {
            next(sc, fr, ModeView::Value(SpecValue::Void))
        } else {
            next(sc, fr.push(FrameView::Block(items, 1)), ModeView::Eval(items[0]))
        },
        SpecNode::ID(x) => match lookup(top.vars, x) {
            Lookup::Found(v) => next(sc, fr, ModeView::Value(v)),
            Lookup::Undeclared => fail(sc, fr, ErrorView::Env(EnvErrorView::UndefinedVariable(x))),
            Lookup::Unset => fail(sc, fr, ErrorView::Env(EnvErrorView::UnsetVariable(x))),
        },
        SpecNode::Binary(l, op, r) => match spec_op_code(op) {
            None => fail(sc, fr, ErrorView::UnknownOperator),
            Some(k) => if k == 0 {
                match *l {
                    SpecNode::ID(name) => next(sc, fr.push(FrameView::Assign(name)), ModeView::Eval(*r)),
                    _ => fail(sc, fr, ErrorView::AssignToNonName),
                }
            } else {
                next(sc, fr.push(FrameView::LeftBinary(*r, k)), ModeView::Eval(*l))
            },
        },
        SpecNode::Dec(a, b) => match (a, b) {
            (SpecToken::Id(x), SpecToken::Id(y)) => match declare(top.vars, x, y) {
                Some(v2) => next(
                    with_top(sc, ScopeView { vars: v2, fns: top.fns }),
                    fr,
                    ModeView::Value(SpecValue::Void),
                ),
                None => fail(sc, fr, ErrorView::Env(EnvErrorView::UnknownType(y))),
            },
            _ => fail(sc, fr, ErrorView::BadDeclaration),
        },
        SpecNode::If(c, t, e) => next(sc, fr.push(FrameView::If(*t, *e)), ModeView::Eval(*c)),
        SpecNode::Call(name, params) => match name {
            SpecToken::Id(x) => if x == print_name() {
                if params.len() == 0 {
                    fail(sc, fr, ErrorView::MissingArgument)
                } else {
                    next(sc, fr.push(FrameView::Print), ModeView::Eval(params[0]))
                }
            } else if !top.fns.contains_key(x) {
                fail(sc, fr, ErrorView::Env(EnvErrorView::UndefinedFunction(x)))
            } else if top.fns[x].args.len() != params.len() {
                fail(sc, fr, ErrorView::WrongArgumentCount)
            } else if params.len() == 0 {
                spec_enter(sc, fr, top.fns[x], seq![])
            } else {
                next(
                    sc,
                    fr.push(FrameView::Params(top.fns[x], params, seq![])),
                    ModeView::Eval(params[0]),
                )
            },
            _ => fail(sc, fr, ErrorView::InvalidFunctionName),
        },
        SpecNode::Null => next(sc, fr, ModeView::Value(SpecValue::Void)),
        SpecNode::FnDef(name, args, typ, body) => if !all_decs(args) {
            fail(sc, fr, ErrorView::NotADeclaration)
        } else {
            match *name {
                SpecNode::ID(x) => match typ {
                    SpecToken::Id(y) => spec_define(sc, fr, x, y, args, *body),
                    SpecToken::FnNullType => spec_define(sc, fr, x, seq!['v', 'o', 'i', 'd'], args, *body),
                    _ => fail(sc, fr, ErrorView::InvalidFunctionType),
                },
                _ => fail(sc, fr, ErrorView::InvalidFunctionName),
            }
        },
        SpecNode::Return(_) => fail(sc, fr, ErrorView::UnhandledReturn),
    }
}

/// Handing value `v` to the innermost frame; with no frame left, the program
/// is done.
pub open spec fn spec_deliver(sc: Seq<ScopeView>, fr: Seq<FrameView>, v: SpecValue) -> (
    MachineView,
    ActionView,
) {
    if fr.len() == 0 {
        go(sc, fr, ModeView::Done(v), ActionView::Finished(v))
    } else {
        let rest = fr.drop_last();
        let top = sc.last();
        match fr.last() {
            FrameView::Block(items, k) => if k < items.len() {
                next(sc, rest.push(FrameView::Block(items, k + 1)), ModeView::Eval(items[k]))
            } else {
                next(sc, rest, ModeView::Value(SpecValue::Void))
            },
            FrameView::Assign(name) => match assign(top.vars, name, v) {
                Some(v2) => next(
                    with_top(sc, ScopeView { vars: v2, fns: top.fns }),
                    rest,
                    ModeView::Value(SpecValue::Void),
                ),
                None => fail(sc, rest, ErrorView::Env(EnvErrorView::UndefinedVariable(name))),
            },
            FrameView::LeftBinary(r, op) => next(
                sc,
                rest.push(FrameView::RightBinary(v, op)),
                ModeView::Eval(r),
            ),
            FrameView::RightBinary(l, op) => match spec_apply_op(op, l, v) {
                Err(e) => fail(sc, rest, e),
                Ok(SpecOpOutcome::Value(w)) => next(sc, rest, ModeView::Value(w)),
                Ok(SpecOpOutcome::Numeric(o, a, b)) => go(
                    sc,
                    rest,
                    if o >= 9 {
                        ModeView::AwaitNumber
                    } else {
                        ModeView::AwaitTruth
                    },
                    ActionView::Compute(o, a, b),
                ),
            },
            FrameView::If(t, e) => match v {
                SpecValue::Bool(Some(b)) => next(
                    sc,
                    rest,
                    ModeView::Eval(
                        if b {
                            t
                        } else {
                            e
                        },
                    ),
                ),
                SpecValue::Bool(None) => fail(sc, rest, ErrorView::UndefinedCondition),
                _ => fail(sc, rest, ErrorView::NonBooleanCondition),
            },
            FrameView::Print => match v {
                SpecValue::Num(Some(x)) => go(
                    sc,
                    rest,
                    ModeView::Value(SpecValue::Void),
                    ActionView::PrintNum(x),
                ),
                SpecValue::Str(Some(s)) => go(
                    sc,
                    rest,
                    ModeView::Value(SpecValue::Void),
                    ActionView::PrintStr(s),
                ),
                SpecValue::Num(None) => fail(sc, rest, ErrorView::UndefinedOperand),
                SpecValue::Str(None) => fail(sc, rest, ErrorView::UndefinedOperand),
                _ => fail(sc, rest, ErrorView::CannotPrint),
            },
            FrameView::Params(f, params, vals) => {
                let vals2 = vals.push(v);
                if vals2.len() < params.len() {
                    next(
                        sc,
                        rest.push(FrameView::Params(f, params, vals2)),
                        ModeView::Eval(params[vals2.len() as int]),
                    )
                } else {
                    spec_enter(sc, rest, f, vals2)
                }
            },
            FrameView::Body(items, k) => if k < items.len() {
                match items[k] {
                    SpecNode::Return(x) => next(sc, rest.push(FrameView::Returning), ModeView::Eval(*x)),
                    _ => next(sc, rest.push(FrameView::Body(items, k + 1)), ModeView::Eval(items[k])),
                }
            } else {
                next(sc.drop_last(), rest, ModeView::Value(SpecValue::Void))
            },
            FrameView::Returning => next(sc.drop_last(), rest, ModeView::Value(v)),
        }
    }
}

/// One step of the machine on event `ev`.
pub open spec fn spec_step(m: MachineView, ev: Event) -> (MachineView, ActionView) {
    match m.mode {
        ModeView::Done(v) => (m, ActionView::Finished(v)),
        ModeView::Failed(e) => (m, ActionView::Failed(e)),
        ModeView::AwaitNumber => match ev {
            Event::Number(x) => next(m.scopes, m.frames, ModeView::Value(SpecValue::Num(Some(x)))),
            _ => fail(m.scopes, m.frames, ErrorView::UnexpectedEvent),
        },
        ModeView::AwaitTruth => match ev {
            Event::Truth(b) => next(m.scopes, m.frames, ModeView::Value(SpecValue::Bool(Some(b)))),
            _ => fail(m.scopes, m.frames, ErrorView::UnexpectedEvent),
        },
        ModeView::Eval(n) => spec_eval(m.scopes, m.frames, n),
        ModeView::Value(v) => spec_deliver(m.scopes, m.frames, v),
    }
}


impl Clone for EvalError {
    fn clone(&self) -> (r: Self)
        ensures
            r == *self,
    {
        match self {
            EvalError::Env(e) => EvalError::Env(e.clone()),
            EvalError::UndefinedOperand => EvalError::UndefinedOperand,
            EvalError::NotANumber => EvalError::NotANumber,
            EvalError::NotABoolean => EvalError::NotABoolean,
            EvalError::UnknownOperator => EvalError::UnknownOperator,
            EvalError::UndefinedCondition => EvalError::UndefinedCondition,
            EvalError::NonBooleanCondition => EvalError::NonBooleanCondition,
            EvalError::CannotPrint => EvalError::CannotPrint,
            EvalError::AssignToNonName => EvalError::AssignToNonName,
            EvalError::BadDeclaration => EvalError::BadDeclaration,
            EvalError::MissingArgument => EvalError::MissingArgument,
            EvalError::WrongArgumentCount => EvalError::WrongArgumentCount,
            EvalError::NotADeclaration => EvalError::NotADeclaration,
            EvalError::InvalidFunctionName => EvalError::InvalidFunctionName,
            EvalError::InvalidFunctionType => EvalError::InvalidFunctionType,
            EvalError::UnhandledReturn => EvalError::UnhandledReturn,
            EvalError::UnexpectedEvent => EvalError::UnexpectedEvent,
        }
    }
}

proof fn lemma_scopes_push(s: Seq<Envir<'static>>, e: Envir<'static>)
    ensures
        scopes_view(s.push(e)) == scopes_view(s).push(scope_view(e)),
{
    assert(scopes_view(s.push(e)) =~= scopes_view(s).push(scope_view(e)));
}

proof fn lemma_scopes_pop(s: Seq<Envir<'static>>)
    requires
        s.len() > 0,
    ensures
        scopes_view(s.drop_last()) == scopes_view(s).drop_last(),
        scopes_view(s).last() == scope_view(s.last()),
        scopes_view(s).len() == s.len(),
{
    assert(scopes_view(s.drop_last()) =~= scopes_view(s).drop_last());
}

proof fn lemma_frames_push(s: Seq<Frame>, f: Frame)
    ensures
        frames_view(s.push(f)) == frames_view(s).push(frame_view(f)),
{
    assert(frames_view(s.push(f)) =~= frames_view(s).push(frame_view(f)));
}

proof fn lemma_frames_pop(s: Seq<Frame>)
    requires
        s.len() > 0,
    ensures
        frames_view(s.drop_last()) == frames_view(s).drop_last(),
        frames_view(s).last() == frame_view(s.last()),
        frames_view(s).len() == s.len(),
{
    assert(frames_view(s.drop_last()) =~= frames_view(s).drop_last());
}

proof fn lemma_read(e: Envir, name: Seq<char>)
    ensures
        match read_var(e.vars@, name) {
            ReadOutcome::Value(v) => lookup(scope_view(e).vars, name) == Lookup::Found(v@),
            ReadOutcome::Undeclared => lookup(scope_view(e).vars, name) is Undeclared,
            ReadOutcome::Unset => lookup(scope_view(e).vars, name) is Unset,
        },
{
}

proof fn lemma_write(e: Envir, e2: Envir, name: Seq<char>, v: TypeContent)
    requires
        e2.fns@ == e.fns@,
        write_var(e.vars@, name, v) matches Some(m) ==> e2.vars@ == m,
        write_var(e.vars@, name, v) is None ==> e2.vars@ == e.vars@,
    ensures
        match assign(scope_view(e).vars, name, v@) {
            Some(m) => write_var(e.vars@, name, v) is Some && scope_view(e2) == (ScopeView {
                vars: m,
                fns: scope_view(e).fns,
            }),
            None => write_var(e.vars@, name, v) is None && scope_view(e2) == scope_view(e),
        },
{
    if let Some(m) = write_var(e.vars@, name, v) {
        assert(scope_view(e2).vars =~= scope_view(e).vars.insert(name, v@));
    }
}

proof fn lemma_declare(e: Envir, e2: Envir, name: Seq<char>, typ: Seq<char>)
    requires
        e2.fns@ == e.fns@,
        declare_var(e.vars@, name, typ) matches Some(m) ==> e2.vars@ == m,
        declare_var(e.vars@, name, typ) is None ==> e2.vars@ == e.vars@,
    ensures
        match declare(scope_view(e).vars, name, typ) {
            Some(m) => declare_var(e.vars@, name, typ) is Some && scope_view(e2) == (ScopeView {
                vars: m,
                fns: scope_view(e).fns,
            }),
            None => declare_var(e.vars@, name, typ) is None && scope_view(e2) == scope_view(e),
        },
{
    if let Some(m) = declare_var(e.vars@, name, typ) {
        let t = type_named(typ)->0;
        assert(scope_view(e2).vars =~= scope_view(e).vars.insert(name, initial_content(t)@));
    }
}

proof fn lemma_define(e: Envir, e2: Envir, name: Seq<char>, f: FnContent)
    requires
        e2.vars@ == e.vars@,
        e2.fns@ == e.fns@.insert(name, f),
    ensures
        scope_view(e2) == (ScopeView { vars: scope_view(e).vars, fns: scope_view(e).fns.insert(name, f@) }),
{
    assert(scope_view(e2).fns =~= scope_view(e).fns.insert(name, f@));
}

/// The outcome of a step that fails with `e`.
fn failed(scopes: Vec<Envir<'static>>, frames: Vec<Frame>, e: EvalError) -> (r: Outcome)
    ensures
        outcome_view(r) == fail(scopes_view(scopes@), frames_view(frames@), e@),
{
    let a = e.clone();
    (scopes, frames, Mode::Failed(e), Action::Failed(a))
}

/// The outcome of a step that leaves nothing for the runner to do.
fn proceed(scopes: Vec<Envir<'static>>, frames: Vec<Frame>, mode: Mode) -> (r: Outcome)
    ensures
        outcome_view(r) == next(scopes_view(scopes@), frames_view(frames@), mode@),
{
    (scopes, frames, mode, Action::Continue)
}

/// The value of a literal other than a number.
fn literal_content(l: Literal) -> (r: TypeContent)
    requires
        !(l is Num),
    ensures
        r@ == literal_value(l@),
{
    match l {
        Literal::Bool(b) => TypeContent::bool(BoolVals::Defined(b)),
        Literal::String(s) => TypeContent::str(StrVals::Defined(s)),
        _ => TypeContent::void,
    }
}

/// Whether a pending frame belongs to a running call, which owns a scope.
pub open spec fn owns_scope(f: FrameView) -> bool {
    f is Body || f is Returning
}

/// The number of running calls among the frames.
pub open spec fn calls(fr: Seq<FrameView>) -> int
    decreases fr.len(),
{
    if fr.len() == 0 {
        0
    } else {
        calls(fr.drop_last()) + if owns_scope(fr.last()) {
            1int
        } else {
            0int
        }
    }
}

/// A frame that collects arguments has collected fewer than it needs, and
/// the function takes as many as the call gives.
pub open spec fn frame_ok(f: FrameView) -> bool {
    match f {
        FrameView::Params(func, params, vals) => func.args.len() == params.len() && vals.len() < params.len(),
        _ => true,
    }
}

/// The machine's invariant: one scope for the program and one for each
/// running call, and every frame well formed.
pub open spec fn wf(m: MachineView) -> bool {
    &&& m.scopes.len() == 1 + calls(m.frames)
    &&& forall|i: int| 0 <= i < m.frames.len() ==> frame_ok(#[trigger] m.frames[i])
}

proof fn lemma_calls_push(fr: Seq<FrameView>, f: FrameView)
    ensures
        calls(fr.push(f)) == calls(fr) + if owns_scope(f) {
            1int
        } else {
            0int
        },
{
    assert(fr.push(f).drop_last() =~= fr);
}

proof fn lemma_calls_nonneg(fr: Seq<FrameView>)
    ensures
        calls(fr) >= 0,
    decreases fr.len(),
{
    if fr.len() > 0 {
        lemma_calls_nonneg(fr.drop_last());
    }
}

/// Once declaring the parameters fails, it fails with the same error however
/// many more there are.
proof fn lemma_declare_params_err(args: Seq<SpecNode>, k: int, n: int)
    requires
        0 <= k <= n,
        declare_params(args, k) is Err,
    ensures
        declare_params(args, n) == declare_params(args, k),
    decreases n - k,
{
    if n > k {
        lemma_declare_params_err(args, k, n - 1);
    }
}

/// Where declaring all parameters succeeds, declaring the first `k` does.
proof fn lemma_declare_params_ok(args: Seq<SpecNode>, k: int, n: int)
    requires
        0 <= k <= n,
        declare_params(args, n) is Ok,
    ensures
        declare_params(args, k) is Ok,
    decreases n - k,
{
    if declare_params(args, k) is Err {
        lemma_declare_params_err(args, k, n);
    }
}

/// Whether `x` names the built-in printing function.
fn is_print(x: &String) -> (r: bool)
    ensures
        r == (x@ == print_name()),
{
    proof {
        reveal_strlit("print");
        assert("print"@ =~= print_name());
    }
    str_eq(x.as_str(), "print")
}

/// Why declaring the parameters `args` of a call would fail, if it would.
fn declare_check(args: &Vec<Node>) -> (r: Option<EvalError>)
    ensures
        match declare_params(nodes_view(*args), args.len() as int) {
            Ok(_) => r is None,
            Err(e) => r matches Some(f) && f@ == e,
        },
{
    let ghost av = nodes_view(*args);
    proof {
        lemma_nodes_view(*args);
    }
    let mut i: usize = 0;
    while i < args.len()
        invariant
            i <= args.len(),
            av == nodes_view(*args),
            av == seq_view(args@),
            declare_params(av, i as int) is Ok,
        decreases args.len() - i,
    {
        assert(av[i as int] == args@[i as int]@);
        match &args[i] {
            Node::Dec(LexToken::ID(_), LexToken::ID(y)) => {
                if type_of_name(y).is_none() {
                    proof {
                        lemma_declare_params_err(av, i + 1, args.len() as int);
                    }
                    return Some(EvalError::Env(EnvError::UnknownType(y.clone())));
                }
            },
            _ => {
                proof {
                    lemma_declare_params_err(av, i + 1, args.len() as int);
                }
                return Some(EvalError::BadDeclaration);
            },
        }
        i = i + 1;
    }
    None
}

/// The items run for a function body.
fn body_vec(body: Node) -> (r: Vec<Node>)
    ensures
        seq_view(r@) == body_items(body@),
{
    match body {
        Node::Prog(items) => {
            proof {
                lemma_nodes_view(*items);
            }
            *items
        },
        other => {
            let ghost ov = other@;
            let v = vec![other];
            assert(seq_view(v@) =~= seq![ov]);
            v
        },
    }
}

/// Enters a call of `func` with argument values `vals`: a new scope declares
/// the parameters and holds the arguments, and the body starts. Every
/// parameter must declare a name of a known type.
fn CallArgsCallback(
    scopes: Vec<Envir<'static>>,
    frames: Vec<Frame>,
    func: FnContent,
    vals: Vec<TypeContent>,
) -> (r: Outcome)
    requires
        declare_params(func@.args, func@.args.len() as int) is Ok,
        vals.len() == func.args.len(),
    ensures
        outcome_view(r) == spec_enter(scopes_view(scopes@), frames_view(frames@), func@, values_view(vals@)),
{
    let ghost fv = func@;
    let ghost av = fv.args;
    let ghost n = av.len() as int;
    proof {
        lemma_nodes_view(*func.args);
    }
    let mut e = Envir {
        is_root: false,
        vars: StringHashMap::new(),
        fns: StringHashMap::new(),
        parent: EnvParent::NoParent,
    };
    assert(scope_view(e).vars =~= Map::empty());
    let mut i: usize = 0;
    while i < func.args.len()
        invariant
            i <= func.args.len(),
            av == nodes_view(*func.args),
            av == seq_view(func.args@),
            n == av.len(),
            declare_params(av, n) is Ok,
            declare_params(av, i as int) == Ok::<Map<Seq<char>, SpecValue>, ErrorView>(scope_view(e).vars),
            e.fns@ == Map::<Seq<char>, FnContent>::empty(),
        decreases func.args.len() - i,
    {
        proof {
            lemma_declare_params_ok(av, i + 1, n);
        }
        assert(av[i as int] == func.args@[i as int]@);
        match &func.args[i] {
            Node::Dec(LexToken::ID(x), LexToken::ID(y)) => {
                let ghost before = e;
                env_def(&mut e, x.clone(), y.clone());
                proof {
                    lemma_declare(before, e, x@, y@);
                }
            },
            _ => {
                assert(false);
            },
        }
        i = i + 1;
    }
    let ghost m0 = scope_view(e).vars;
    let mut j: usize = 0;
    while j < func.args.len()
        invariant
            j <= func.args.len(),
            vals.len() == func.args.len(),
            av == seq_view(func.args@),
            n == av.len(),
            scope_view(e).vars == assign_params(av, values_view(vals@), j as int, m0),
            e.fns@ == Map::<Seq<char>, FnContent>::empty(),
        decreases func.args.len() - j,
    {
        assert(av[j as int] == func.args@[j as int]@);
        match &func.args[j] {
            Node::Dec(LexToken::ID(x), _) => {
                let ghost before = scope_view(e).vars;
                let v = vals[j].clone();
                e.vars.insert(x.clone(), v);
                assert(scope_view(e).vars =~= before.insert(x@, values_view(vals@)[j as int]));
            },
            _ => {},
        }
        j = j + 1;
    }
    assert(scope_view(e).fns =~= Map::empty());
    let items = body_vec(func.body);
    let mut scopes = scopes;
    let mut frames = frames;
    let ghost s0 = scopes@;
    let ghost f0 = frames@;
    let ghost ev = e;
    scopes.push(e);
    frames.push(Frame::Body(items, 0));
    proof {
        lemma_scopes_push(s0, ev);
        lemma_frames_push(f0, frames@.last());
        assert(frames@ == f0.push(frames@.last()));
    }
    proceed(scopes, frames, Mode::Value(TypeContent::void))
}

/// The scopes with the innermost one replaced, on values.
proof fn lemma_replace_top(s0: Seq<Envir<'static>>, before: Envir<'static>, after: Envir<'static>)
    requires
        s0.len() > 0,
        s0.last() == before,
    ensures
        scopes_view(s0.drop_last().push(after)) == with_top(scopes_view(s0), scope_view(after)),
        scopes_view(s0).last() == scope_view(before),
{
    lemma_scopes_pop(s0);
    lemma_scopes_push(s0.drop_last(), after);
}

/// Stores the value of an assignment, or goes on to the right operand of a
/// binary operator. An assigned variable must be declared in the innermost
/// scope.
fn oneBigcallback(scopes: Vec<Envir<'static>>, frames: Vec<Frame>, c: TypeContent, a: Frame) -> (r: Outcome)
    requires
        scopes.len() > 0,
        a is Assign || a is LeftBinary,
        a matches Frame::Assign(name) ==> scopes@.last().vars@.contains_key(name@),
    ensures
        outcome_view(r) == spec_deliver(scopes_view(scopes@), frames_view(frames@).push(frame_view(a)), c@),
{
    let ghost f0 = frames@;
    assert(frames_view(f0).push(frame_view(a)).drop_last() =~= frames_view(f0));
    let mut scopes = scopes;
    let mut frames = frames;
    match a {
        Frame::Assign(name) => {
            let ghost s0 = scopes@;
            proof {
                lemma_scopes_pop(s0);
            }
            let mut top = scopes.pop().unwrap();
            let ghost before = top;
            let ghost cv = c;
            env_set(&mut top, name, c);
            proof {
                lemma_write(before, top, name@, cv);
                lemma_replace_top(s0, before, top);
            }
            scopes.push(top);
            proceed(scopes, frames, Mode::Value(TypeContent::void))
        },
        Frame::LeftBinary(right, op) => {
            let ghost cv = c@;
            frames.push(Frame::RightBinary(c, op));
            proof {
                lemma_frames_push(f0, frames@.last());
                assert(frames@ == f0.push(frames@.last()));
            }
            proceed(scopes, frames, Mode::Eval(right))
        },
        _ => {
            proof {
                assert(false);
            }
            proceed(scopes, frames, Mode::Value(TypeContent::void))
        },
    }
}

/// Applies operator `op` to the held left operand and the value `c`, on
/// which it must be defined. A numeric operation is asked of the runner.
fn RightBinaryCallBack(
    scopes: Vec<Envir<'static>>,
    frames: Vec<Frame>,
    c: TypeContent,
    left: TypeContent,
    op: usize,
) -> (r: Outcome)
    requires
        spec_apply_op(op as int, left@, c@) is Ok,
    ensures
        outcome_view(r) == spec_deliver(
            scopes_view(scopes@),
            frames_view(frames@).push(frame_view(Frame::RightBinary(left, op))),
            c@,
        ),
{
    let ghost f0 = frames@;
    assert(frames_view(f0).push(frame_view(Frame::RightBinary(left, op))).drop_last() =~= frames_view(f0));
    match apply_op(op, left, c) {
        OpOutcome::Value(w) => proceed(scopes, frames, Mode::Value(w)),
        OpOutcome::Numeric(o, x, y) => {
            let mode = if o >= 9 {
                Mode::AwaitNumber
            } else {
                Mode::AwaitTruth
            };
            (scopes, frames, mode, Action::Compute(o, x, y))
        },
    }
}

/// Runs the branch that the condition `c` chooses; the condition must be a
/// boolean with a value.
fn IfCallback(scopes: Vec<Envir<'static>>, frames: Vec<Frame>, c: TypeContent, then: Node, els: Node) -> (r: Outcome)
    requires
        c@ matches SpecValue::Bool(Some(_)),
    ensures
        outcome_view(r) == spec_deliver(
            scopes_view(scopes@),
            frames_view(frames@).push(frame_view(Frame::If(then, els))),
            c@,
        ),
{
    let ghost f0 = frames@;
    assert(frames_view(f0).push(frame_view(Frame::If(then, els))).drop_last() =~= frames_view(f0));
    if chk_bool(c) {
        proceed(scopes, frames, Mode::Eval(then))
    } else {
        proceed(scopes, frames, Mode::Eval(els))
    }
}

/// Asks the runner to print the value `c`, which must be a number or a
/// string with a value.
fn BuiltinPrintCallback(scopes: Vec<Envir<'static>>, frames: Vec<Frame>, c: TypeContent) -> (r: Outcome)
    requires
        c@ matches SpecValue::Num(Some(_)) || c@ matches SpecValue::Str(Some(_)),
    ensures
        outcome_view(r) == spec_deliver(scopes_view(scopes@), frames_view(frames@).push(FrameView::Print), c@),
{
    let ghost f0 = frames@;
    assert(frames_view(f0).push(FrameView::Print).drop_last() =~= frames_view(f0));
    match c {
        TypeContent::F64(F64Vals::Defined(x)) => (scopes, frames, Mode::Value(TypeContent::void), Action::PrintNum(x)),
        TypeContent::str(StrVals::Defined(s)) => (scopes, frames, Mode::Value(TypeContent::void), Action::PrintStr(s)),
        _ => {
            proof {
                assert(false);
            }
            proceed(scopes, frames, Mode::Value(TypeContent::void))
        },
    }
}

/// Collects the value `c` as the next argument of a call of `func`; with
/// every argument collected, the call is entered, which needs every
/// parameter to declare a name of a known type.
fn CallParamsCallback(
    scopes: Vec<Envir<'static>>,
    frames: Vec<Frame>,
    c: TypeContent,
    func: FnContent,
    params: Vec<Node>,
    vals: Vec<TypeContent>,
) -> (r: Outcome)
    requires
        func@.args.len() == params.len(),
        vals.len() < params.len(),
        vals.len() + 1 == params.len() ==> declare_params(func@.args, func@.args.len() as int) is Ok,
    ensures
        outcome_view(r) == spec_deliver(
            scopes_view(scopes@),
            frames_view(frames@).push(frame_view(Frame::Params(func, params, vals))),
            c@,
        ),
{
    let ghost f0 = frames@;
    let ghost fr = frame_view(Frame::Params(func, params, vals));
    assert(frames_view(f0).push(fr).drop_last() =~= frames_view(f0));
    let ghost vv = values_view(vals@);
    let mut vals = vals;
    let ghost cv = c@;
    vals.push(c);
    assert(values_view(vals@) =~= vv.push(cv));
    if vals.len() < params.len() {
        let p = params[vals.len()].clone();
        let mut frames = frames;
        frames.push(Frame::Params(func, params, vals));
        proof {
            lemma_frames_push(f0, frames@.last());
            assert(frames@ == f0.push(frames@.last()));
        }
        proceed(scopes, frames, Mode::Eval(p))
    } else {
        proof {
            lemma_nodes_view(*func.args);
        }
        CallArgsCallback(scopes, frames, func, vals)
    }
}

/// Runs the next item of a block, or ends it.
fn block_callback(scopes: Vec<Envir<'static>>, frames: Vec<Frame>, c: TypeContent, items: Vec<Node>, k: usize) -> (r: Outcome)
    ensures
        outcome_view(r) == spec_deliver(
            scopes_view(scopes@),
            frames_view(frames@).push(frame_view(Frame::Block(items, k))),
            c@,
        ),
{
    let ghost f0 = frames@;
    assert(frames_view(f0).push(frame_view(Frame::Block(items, k))).drop_last() =~= frames_view(f0));
    if k < items.len() {
        let x = items[k].clone();
        let mut frames = frames;
        frames.push(Frame::Block(items, k + 1));
        proof {
            lemma_frames_push(f0, frames@.last());
            assert(frames@ == f0.push(frames@.last()));
        }
        proceed(scopes, frames, Mode::Eval(x))
    } else {
        proceed(scopes, frames, Mode::Value(TypeContent::void))
    }
}

/// Runs the next item of a called function's body, or leaves the call with
/// nothing; a `return` item evaluates its expression and leaves with it.
fn body_callback(scopes: Vec<Envir<'static>>, frames: Vec<Frame>, c: TypeContent, items: Vec<Node>, k: usize) -> (r: Outcome)
    requires
        scopes.len() > 0,
    ensures
        outcome_view(r) == spec_deliver(
            scopes_view(scopes@),
            frames_view(frames@).push(frame_view(Frame::Body(items, k))),
            c@,
        ),
{
    let ghost f0 = frames@;
    assert(frames_view(f0).push(frame_view(Frame::Body(items, k))).drop_last() =~= frames_view(f0));
    let mut frames = frames;
    if k < items.len() {
        let x = items[k].clone();
        match x {
            Node::Return(y) => {
                frames.push(Frame::Returning);
                proof {
                    lemma_frames_push(f0, frames@.last());
                    assert(frames@ == f0.push(frames@.last()));
                }
                proceed(scopes, frames, Mode::Eval(*y))
            },
            other => {
                frames.push(Frame::Body(items, k + 1));
                proof {
                    lemma_frames_push(f0, frames@.last());
                    assert(frames@ == f0.push(frames@.last()));
                }
                proceed(scopes, frames, Mode::Eval(other))
            },
        }
    } else {
        let mut scopes = scopes;
        proof {
            lemma_scopes_pop(scopes@);
        }
        scopes.pop();
        proceed(scopes, frames, Mode::Value(TypeContent::void))
    }
}

/// Leaves the current call with the value `c`.
fn returning_callback(scopes: Vec<Envir<'static>>, frames: Vec<Frame>, c: TypeContent) -> (r: Outcome)
    requires
        scopes.len() > 0,
    ensures
        outcome_view(r) == spec_deliver(scopes_view(scopes@), frames_view(frames@).push(FrameView::Returning), c@),
{
    let ghost f0 = frames@;
    assert(frames_view(f0).push(FrameView::Returning).drop_last() =~= frames_view(f0));
    let mut scopes = scopes;
    proof {
        lemma_scopes_pop(scopes@);
    }
    scopes.pop();
    proceed(scopes, frames, Mode::Value(c))
}

/// Hands the value `v` to the innermost pending frame: a value that the
/// frame cannot take (an unset or non-boolean condition, an operand that an
/// operator is not defined on, a value that cannot be printed, an undeclared
/// variable, parameters that cannot be declared) stops the machine with the
/// error.
fn deliver(scopes: Vec<Envir<'static>>, frames: Vec<Frame>, v: TypeContent) -> (r: Outcome)
    requires
        scopes.len() == 1 + calls(frames_view(frames@)),
        forall|i: int| 0 <= i < frames.len() ==> frame_ok(#[trigger] frames_view(frames@)[i]),
    ensures
        outcome_view(r) == spec_deliver(scopes_view(scopes@), frames_view(frames@), v@),
{
    let ghost f0 = frames@;
    let ghost s0 = scopes@;
    if frames.len() == 0 {
        let w = v.clone();
        return (scopes, frames, Mode::Done(v), Action::Finished(w));
    }
    proof {
        lemma_frames_pop(f0);
        lemma_calls_nonneg(frames_view(f0).drop_last());
        lemma_scopes_pop(s0);
        assert(frame_ok(frames_view(f0)[f0.len() - 1]));
    }
    let mut frames = frames;
    let top = frames.pop().unwrap();
    assert(frames_view(f0) == frames_view(frames@).push(frame_view(top)));
    assert(frame_ok(frame_view(top)));
    match top {
        Frame::Block(items, k) => block_callback(scopes, frames, v, items, k),
        Frame::Assign(name) => {
            let n = scopes.len();
            if scopes[n - 1].vars.contains_key(name.as_str()) {
                oneBigcallback(scopes, frames, v, Frame::Assign(name))
            } else {
                failed(scopes, frames, EvalError::Env(EnvError::UndefinedVariable(name)))
            }
        },
        Frame::LeftBinary(right, op) => oneBigcallback(scopes, frames, v, Frame::LeftBinary(right, op)),
        Frame::RightBinary(left, op) => match op_check(op, &left, &v) {
            Some(e) => failed(scopes, frames, e),
            None => RightBinaryCallBack(scopes, frames, v, left, op),
        },
        Frame::If(then, els) => match v {
            TypeContent::bool(BoolVals::Defined(_)) => IfCallback(scopes, frames, v, then, els),
            TypeContent::bool(BoolVals::Undefined) => failed(scopes, frames, EvalError::UndefinedCondition),
            _ => failed(scopes, frames, EvalError::NonBooleanCondition),
        },
        Frame::Print => match v {
            TypeContent::F64(F64Vals::Defined(_)) => BuiltinPrintCallback(scopes, frames, v),
            TypeContent::str(StrVals::Defined(_)) => BuiltinPrintCallback(scopes, frames, v),
            TypeContent::F64(F64Vals::Undefined) => failed(scopes, frames, EvalError::UndefinedOperand),
            TypeContent::str(StrVals::Undefined) => failed(scopes, frames, EvalError::UndefinedOperand),
            _ => failed(scopes, frames, EvalError::CannotPrint),
        },
        Frame::Params(func, params, vals) => {
            assert(values_view(vals@).len() == vals.len());
            assert(seq_view(params@).len() == params.len());
            if vals.len() + 1 == params.len() {
                proof {
                    lemma_nodes_view(*func.args);
                }
                match declare_check(&func.args) {
                    Some(e) => {
                        return failed(scopes, frames, e);
                    },
                    None => {},
                }
            }
            CallParamsCallback(scopes, frames, v, func, params, vals)
        },
        Frame::Body(items, k) => body_callback(scopes, frames, v, items, k),
        Frame::Returning => returning_callback(scopes, frames, v),
    }
}

/// Reads a variable of the innermost scope.
fn eval_id(scopes: Vec<Envir<'static>>, frames: Vec<Frame>, x: String) -> (r: Outcome)
    requires
        scopes.len() > 0,
    ensures
        outcome_view(r) == spec_eval(scopes_view(scopes@), frames_view(frames@), SpecNode::ID(x@)),
{
    proof {
        lemma_scopes_pop(scopes@);
        lemma_read(scopes@.last(), x@);
    }
    let n = scopes.len();
    let found = match scopes[n - 1].vars.get(x.as_str()) {
        None => 0u8,
        Some(v) => if is_undef(v.clone()) {
            1u8
        } else {
            2u8
        },
    };
    if found == 0 {
        failed(scopes, frames, EvalError::Env(EnvError::UndefinedVariable(x)))
    } else if found == 1 {
        failed(scopes, frames, EvalError::Env(EnvError::UnsetVariable(x)))
    } else {
        let v = env_get(&scopes[n - 1], x);
        proceed(scopes, frames, Mode::Value(v))
    }
}

/// Starts an assignment, or a binary operator on its left operand.
fn eval_binary(scopes: Vec<Envir<'static>>, frames: Vec<Frame>, l: Node, op: LexToken, right: Node) -> (r: Outcome)
    requires
        scopes.len() > 0,
    ensures
        outcome_view(r) == spec_eval(
            scopes_view(scopes@),
            frames_view(frames@),
            SpecNode::Binary(Box::new(l@), op@, Box::new(right@)),
        ),
{
    let ghost f0 = frames@;
    let mut frames = frames;
    match op_code(&op) {
        None => failed(scopes, frames, EvalError::UnknownOperator),
        Some(k) => if k == 0 {
            match l {
                Node::ID(name) => {
                    frames.push(Frame::Assign(name));
                    proof {
                        lemma_frames_push(f0, frames@.last());
                        assert(frames@ == f0.push(frames@.last()));
                    }
                    proceed(scopes, frames, Mode::Eval(right))
                },
                _ => failed(scopes, frames, EvalError::AssignToNonName),
            }
        } else {
            frames.push(Frame::LeftBinary(right, k));
            proof {
                lemma_frames_push(f0, frames@.last());
                assert(frames@ == f0.push(frames@.last()));
            }
            proceed(scopes, frames, Mode::Eval(l))
        },
    }
}

/// Declares a variable in the innermost scope.
fn eval_dec(scopes: Vec<Envir<'static>>, frames: Vec<Frame>, a: LexToken, b: LexToken) -> (r: Outcome)
    requires
        scopes.len() > 0,
    ensures
        outcome_view(r) == spec_eval(scopes_view(scopes@), frames_view(frames@), SpecNode::Dec(a@, b@)),
{
    match (a, b) {
        (LexToken::ID(x), LexToken::ID(y)) => {
            if type_of_name(&y).is_none() {
                return failed(scopes, frames, EvalError::Env(EnvError::UnknownType(y)));
            }
            let ghost s0 = scopes@;
            proof {
                lemma_scopes_pop(s0);
            }
            let mut scopes = scopes;
            let mut top = scopes.pop().unwrap();
            let ghost before = top;
            let ghost xv = x@;
            let ghost yv = y@;
            env_def(&mut top, x, y);
            proof {
                lemma_declare(before, top, xv, yv);
                lemma_replace_top(s0, before, top);
            }
            scopes.push(top);
            proceed(scopes, frames, Mode::Value(TypeContent::void))
        },
        _ => failed(scopes, frames, EvalError::BadDeclaration),
    }
}

/// Starts a call: of `print` on its first argument, or of a function of the
/// innermost scope that takes as many arguments as are given.
fn eval_call(scopes: Vec<Envir<'static>>, frames: Vec<Frame>, name: LexToken, params: Vec<Node>) -> (r: Outcome)
    requires
        scopes.len() > 0,
    ensures
        outcome_view(r) == spec_eval(
            scopes_view(scopes@),
            frames_view(frames@),
            SpecNode::Call(name@, seq_view(params@)),
        ),
{
    let ghost f0 = frames@;
    proof {
        lemma_scopes_pop(scopes@);
    }
    let mut frames = frames;
    match name {
        LexToken::ID(x) => {
            if is_print(&x) {
                if params.len() == 0 {
                    failed(scopes, frames, EvalError::MissingArgument)
                } else {
                    let p = params[0].clone();
                    frames.push(Frame::Print);
                    proof {
                        lemma_frames_push(f0, frames@.last());
                        assert(frames@ == f0.push(frames@.last()));
                    }
                    proceed(scopes, frames, Mode::Eval(p))
                }
            } else {
                let n = scopes.len();
                if !scopes[n - 1].fns.contains_key(x.as_str()) {
                    return failed(scopes, frames, EvalError::Env(EnvError::UndefinedFunction(x)));
                }
                let func = fenv_get(&scopes[n - 1], x);
                if func.args.len() != params.len() {
                    failed(scopes, frames, EvalError::WrongArgumentCount)
                } else if params.len() == 0 {
                    proof {
                        lemma_nodes_view(*func.args);
                    }
                    let vals: Vec<TypeContent> = Vec::new();
                    assert(values_view(vals@) =~= seq![]);
                    CallArgsCallback(scopes, frames, func, vals)
                } else {
                    let p = params[0].clone();
                    let vals: Vec<TypeContent> = Vec::new();
                    assert(values_view(vals@) =~= seq![]);
                    proof {
                        lemma_nodes_view(*func.args);
                    }
                    frames.push(Frame::Params(func, params, vals));
                    proof {
                        lemma_frames_push(f0, frames@.last());
                        assert(frames@ == f0.push(frames@.last()));
                    }
                    proceed(scopes, frames, Mode::Eval(p))
                }
            }
        },
        _ => failed(scopes, frames, EvalError::InvalidFunctionName),
    }
}

/// Defines function `x` in the innermost scope.
fn define(
    scopes: Vec<Envir<'static>>,
    frames: Vec<Frame>,
    x: String,
    y: String,
    args: Box<Vec<Node>>,
    body: Node,
) -> (r: Outcome)
    requires
        scopes.len() > 0,
    ensures
        outcome_view(r) == spec_define(scopes_view(scopes@), frames_view(frames@), x@, y@, nodes_view(*args), body@),
{
    if type_of_name(&y).is_none() {
        return failed(scopes, frames, EvalError::Env(EnvError::UnknownType(y)));
    }
    let ghost s0 = scopes@;
    proof {
        lemma_scopes_pop(s0);
    }
    let mut scopes = scopes;
    let mut top = scopes.pop().unwrap();
    let ghost before = top;
    let ghost xv = x@;
    let ghost f = (FnContent { args: args, typ: type_named(y@)->0, body: body });
    fenv_def(&mut top, x, y, args, body);
    proof {
        lemma_define(before, top, xv, f);
        lemma_replace_top(s0, before, top);
    }
    scopes.push(top);
    proceed(scopes, frames, Mode::Value(TypeContent::void))
}

/// Defines a function whose parameters are all declarations.
fn eval_fndef(
    scopes: Vec<Envir<'static>>,
    frames: Vec<Frame>,
    name: Node,
    args: Box<Vec<Node>>,
    typ: LexToken,
    body: Node,
) -> (r: Outcome)
    requires
        scopes.len() > 0,
    ensures
        outcome_view(r) == spec_eval(
            scopes_view(scopes@),
            frames_view(frames@),
            SpecNode::FnDef(Box::new(name@), nodes_view(*args), typ@, Box::new(body@)),
        ),
{
    let ghost av = nodes_view(*args);
    proof {
        lemma_nodes_view(*args);
    }
    let mut i: usize = 0;
    while i < args.len()
        invariant
            i <= args.len(),
            av == seq_view(args@),
            av == nodes_view(*args),
            forall|k: int| 0 <= k < i ==> (#[trigger] av[k]) is Dec,
        decreases args.len() - i,
    {
        assert(av[i as int] == args@[i as int]@);
        if !matches!(args[i], Node::Dec(_, _)) {
            assert(!(av[i as int] is Dec));
            assert(!all_decs(av));
            return failed(scopes, frames, EvalError::NotADeclaration);
        }
        i = i + 1;
    }
    match name {
        Node::ID(x) => match typ {
            LexToken::ID(y) => define(scopes, frames, x, y, args, body),
            LexToken::FN_NULL_TYPE => {
                let y = String::from_str("void");
                proof {
                    reveal_strlit("void");
                    assert(y@ =~= seq!['v', 'o', 'i', 'd']);
                }
                define(scopes, frames, x, y, args, body)
            },
            _ => failed(scopes, frames, EvalError::InvalidFunctionType),
        },
        _ => failed(scopes, frames, EvalError::InvalidFunctionName),
    }
}

/// One step on the expression `ex`, whatever it is: an expression that
/// cannot be evaluated stops the machine with the error.
fn step_eval(scopes: Vec<Envir<'static>>, frames: Vec<Frame>, ex: Node) -> (r: Outcome)
    requires
        scopes.len() > 0,
    ensures
        outcome_view(r) == spec_eval(scopes_view(scopes@), frames_view(frames@), ex@),
{
    let ghost f0 = frames@;
    match ex {
        Node::Literal(Literal::Num(t)) => (scopes, frames, Mode::AwaitNumber, Action::ReadNumber(t)),
        Node::Literal(l) => proceed(scopes, frames, Mode::Value(literal_content(l))),
        Node::Prog(items) => {
            proof {
                lemma_nodes_view(*items);
            }
            if items.len() == 0 {
                proceed(scopes, frames, Mode::Value(TypeContent::void))
            } else {
                let first = items[0].clone();
                let mut frames = frames;
                frames.push(Frame::Block(*items, 1));
                proof {
                    lemma_frames_push(f0, frames@.last());
                    assert(frames@ == f0.push(frames@.last()));
                }
                proceed(scopes, frames, Mode::Eval(first))
            }
        },
        Node::ID(x) => eval_id(scopes, frames, x),
        Node::Binary(l, op, right) => eval_binary(scopes, frames, *l, op, *right),
        Node::Dec(a, b) => eval_dec(scopes, frames, a, b),
        Node::If(c, then, els) => {
            let mut frames = frames;
            frames.push(Frame::If(*then, *els));
            proof {
                lemma_frames_push(f0, frames@.last());
                assert(frames@ == f0.push(frames@.last()));
            }
            proceed(scopes, frames, Mode::Eval(*c))
        },
        Node::Call(name, params) => {
            proof {
                lemma_nodes_view(*params);
            }
            eval_call(scopes, frames, name, *params)
        },
        Node::Null => proceed(scopes, frames, Mode::Value(TypeContent::void)),
        Node::FnDef(name, args, typ, body) => eval_fndef(scopes, frames, *name, args, typ, *body),
        Node::Return(_) => failed(scopes, frames, EvalError::UnhandledReturn),
    }
}

/// One step of evaluation of the expression `ex` in the innermost scope:
/// its value, or the frame and expression that compute it, or the numeric
/// work asked of the runner. The expression must be one that can be
/// evaluated: a read variable is declared and set, an operator is known, an
/// assignment is to a name, a declaration or a definition names a known
/// type, a defined function has only declarations as parameters, and a
/// called function exists, takes as many arguments as are given and
/// declares parameters of known types (`print` takes at least one).
pub fn eval(scopes: Vec<Envir<'static>>, frames: Vec<Frame>, ex: Node) -> (r: Outcome)
    requires
        scopes.len() > 0,
        !(spec_eval(scopes_view(scopes@), frames_view(frames@), ex@).0.mode is Failed),
    ensures
        outcome_view(r) == spec_eval(scopes_view(scopes@), frames_view(frames@), ex@),
{
    step_eval(scopes, frames, ex)
}

/// The machine before a program `p` runs: one empty scope, no frames.
pub open spec fn initial_view(p: SpecNode) -> MachineView {
    MachineView {
        scopes: seq![ScopeView { vars: Map::empty(), fns: Map::empty() }],
        frames: seq![],
        mode: ModeView::Eval(p),
    }
}

/// An evaluator that runs a program one step at a time: each step hands the
/// runner an action, and takes its answer as the next step's event.
pub struct Machine {
    scopes: Vec<Envir<'static>>,
    frames: Vec<Frame>,
    mode: Mode,
}

impl View for Machine {
    type V = MachineView;

    closed spec fn view(&self) -> MachineView {
        MachineView { scopes: scopes_view(self.scopes@), frames: frames_view(self.frames@), mode: self.mode@ }
    }
}

impl Machine {
    #[verifier::type_invariant]
    spec fn inv(self) -> bool {
        wf(self@)
    }

    /// A machine about to run `program` in an empty root scope.
    pub fn new(program: Node) -> (r: Machine)
        ensures
            r@ == initial_view(program@),
    {
        let root = Envir::new_root();
        let ghost rv = root;
        let scopes = vec![root];
        let frames: Vec<Frame> = Vec::new();
        proof {
            assert(scope_view(rv).vars =~= Map::empty());
            assert(scope_view(rv).fns =~= Map::empty());
            assert(scopes_view(scopes@) =~= seq![scope_view(rv)]);
            assert(frames_view(frames@) =~= seq![]);
        }
        Machine { scopes, frames, mode: Mode::Eval(program) }
    }

    /// One step on event `ev`: the machine after it and the action asked of
    /// the runner.
    pub fn step(self, ev: Event) -> (r: (Machine, Action))
        ensures
            (r.0@, r.1@) == spec_step(self@, ev),
    {
        proof {
            use_type_invariant(&self);
            law_step_keeps_wf(self@, ev);
        }
        let ghost m = self@;
        let Machine { scopes, frames, mode } = self;
        let out = match mode {
            Mode::Done(v) => {
                let w = v.clone();
                (scopes, frames, Mode::Done(v), Action::Finished(w))
            },
            Mode::Failed(e) => {
                let a = e.clone();
                (scopes, frames, Mode::Failed(e), Action::Failed(a))
            },
            Mode::AwaitNumber => match ev {
                Event::Number(x) => proceed(scopes, frames, Mode::Value(TypeContent::F64(F64Vals::Defined(x)))),
                _ => failed(scopes, frames, EvalError::UnexpectedEvent),
            },
            Mode::AwaitTruth => match ev {
                Event::Truth(b) => proceed(scopes, frames, Mode::Value(TypeContent::bool(BoolVals::Defined(b)))),
                _ => failed(scopes, frames, EvalError::UnexpectedEvent),
            },
            Mode::Eval(n) => {
                proof {
                    lemma_calls_nonneg(frames_view(frames@));
                }
                step_eval(scopes, frames, n)
            },
            Mode::Value(v) => deliver(scopes, frames, v),
        };
        let (s, f, md, a) = out;
        (Machine { scopes: s, frames: f, mode: md }, a)
    }
}

proof fn lemma_push_wf(sc: Seq<ScopeView>, fr: Seq<FrameView>, f: FrameView)
    requires
        sc.len() == 1 + calls(fr),
        forall|i: int| 0 <= i < fr.len() ==> frame_ok(#[trigger] fr[i]),
        frame_ok(f),
        !owns_scope(f),
    ensures
        sc.len() == 1 + calls(fr.push(f)),
        forall|i: int| 0 <= i < fr.push(f).len() ==> frame_ok(#[trigger] fr.push(f)[i]),
{
    lemma_calls_push(fr, f);
    assert forall|i: int| 0 <= i < fr.push(f).len() implies frame_ok(#[trigger] fr.push(f)[i]) by {
        if i < fr.len() {
            assert(fr.push(f)[i] == fr[i]);
        }
    }
}

proof fn lemma_enter_wf(sc: Seq<ScopeView>, fr: Seq<FrameView>, f: SpecFn, vals: Seq<SpecValue>)
    requires
        sc.len() == 1 + calls(fr),
        forall|i: int| 0 <= i < fr.len() ==> frame_ok(#[trigger] fr[i]),
    ensures
        wf(spec_enter(sc, fr, f, vals).0),
{
    if let Ok(m) = declare_params(f.args, f.args.len() as int) {
        let b = FrameView::Body(body_items(f.body), 0);
        lemma_calls_push(fr, b);
        assert forall|i: int| 0 <= i < fr.push(b).len() implies frame_ok(#[trigger] fr.push(b)[i]) by {
            if i < fr.len() {
                assert(fr.push(b)[i] == fr[i]);
            }
        }
    }
}

proof fn lemma_eval_wf(sc: Seq<ScopeView>, fr: Seq<FrameView>, n: SpecNode)
    requires
        sc.len() == 1 + calls(fr),
        forall|i: int| 0 <= i < fr.len() ==> frame_ok(#[trigger] fr[i]),
    ensures
        wf(spec_eval(sc, fr, n).0),
{
    lemma_calls_nonneg(fr);
    let top = sc.last();
    match n {
        SpecNode::Prog(items) => {
            if items.len() > 0 {
                lemma_push_wf(sc, fr, FrameView::Block(items, 1));
            }
        },
        SpecNode::Binary(l, op, r) => {
            if let Some(k) = spec_op_code(op) {
                if k == 0 {
                    if let SpecNode::ID(name) = *l {
                        lemma_push_wf(sc, fr, FrameView::Assign(name));
                    }
                } else {
                    lemma_push_wf(sc, fr, FrameView::LeftBinary(*r, k));
                }
            }
        },
        SpecNode::If(c, t, e) => {
            lemma_push_wf(sc, fr, FrameView::If(*t, *e));
        },
        SpecNode::Call(name, params) => {
            if let SpecToken::Id(x) = name {
                if x == print_name() {
                    lemma_push_wf(sc, fr, FrameView::Print);
                } else if top.fns.contains_key(x) && top.fns[x].args.len() == params.len() {
                    if params.len() == 0 {
                        lemma_enter_wf(sc, fr, top.fns[x], seq![]);
                    } else {
                        lemma_push_wf(sc, fr, FrameView::Params(top.fns[x], params, seq![]));
                    }
                }
            }
        },
        _ => {},
    }
}

proof fn lemma_deliver_wf(sc: Seq<ScopeView>, fr: Seq<FrameView>, v: SpecValue)
    requires
        sc.len() == 1 + calls(fr),
        forall|i: int| 0 <= i < fr.len() ==> frame_ok(#[trigger] fr[i]),
    ensures
        wf(spec_deliver(sc, fr, v).0),
{
    if fr.len() > 0 {
        let rest = fr.drop_last();
        lemma_calls_nonneg(rest);
        assert(fr == rest.push(fr.last()));
        lemma_calls_push(rest, fr.last());
        assert forall|i: int| 0 <= i < rest.len() implies frame_ok(#[trigger] rest[i]) by {
            assert(rest[i] == fr[i]);
        }
        assert(frame_ok(fr[fr.len() - 1]));
        match fr.last() {
            FrameView::Block(items, k) => {
                if k < items.len() {
                    lemma_push_wf(sc, rest, FrameView::Block(items, k + 1));
                }
            },
            FrameView::LeftBinary(r, op) => {
                lemma_push_wf(sc, rest, FrameView::RightBinary(v, op));
            },
            FrameView::Params(f, params, vals) => {
                let vals2 = vals.push(v);
                if vals2.len() < params.len() {
                    lemma_push_wf(sc, rest, FrameView::Params(f, params, vals2));
                } else {
                    lemma_enter_wf(sc, rest, f, vals2);
                }
            },
            FrameView::Body(items, k) => {
                if k < items.len() {
                    let b = match items[k] {
                        SpecNode::Return(x) => FrameView::Returning,
                        _ => FrameView::Body(items, k + 1),
                    };
                    lemma_calls_push(rest, b);
                    assert forall|i: int| 0 <= i < rest.push(b).len() implies frame_ok(#[trigger] rest.push(b)[i]) by {
                        if i < rest.len() {
                            assert(rest.push(b)[i] == rest[i]);
                        }
                    }
                }
            },
            _ => {},
        }
    }
}

/// Every step keeps the machine's invariant: one scope for the program and
/// one for each running call, and every frame well formed.
pub proof fn law_step_keeps_wf(m: MachineView, ev: Event)
    requires
        wf(m),
    ensures
        wf(spec_step(m, ev).0),
{
    match m.mode {
        ModeView::Eval(n) => lemma_eval_wf(m.scopes, m.frames, n),
        ModeView::Value(v) => lemma_deliver_wf(m.scopes, m.frames, v),
        _ => {},
    }
}

/// A machine that has finished or failed stays as it is, and answers every
/// event with its result.
pub proof fn law_finished_is_final(m: MachineView, ev: Event)
    requires
        m.mode is Done || m.mode is Failed,
    ensures
        spec_step(m, ev).0 == m,
        m.mode matches ModeView::Done(v) ==> spec_step(m, ev).1 == ActionView::Finished(v),
        m.mode matches ModeView::Failed(e) ==> spec_step(m, ev).1 == ActionView::Failed(e),
{
}

/// The answer to a requested operation becomes the value handed on, and
/// nothing else changes; any other answer stops the machine.
pub proof fn law_compute_answered(m: MachineView, ev: Event)
    requires
        m.mode is AwaitNumber || m.mode is AwaitTruth,
    ensures
        (m.mode is AwaitNumber && ev matches Event::Number(x)) ==> spec_step(m, ev) == next(
            m.scopes,
            m.frames,
            ModeView::Value(SpecValue::Num(Some(ev->Number_0))),
        ),
        (m.mode is AwaitTruth && ev matches Event::Truth(b)) ==> spec_step(m, ev) == next(
            m.scopes,
            m.frames,
            ModeView::Value(SpecValue::Bool(Some(ev->Truth_0))),
        ),
        (m.mode is AwaitNumber && !(ev is Number)) || (m.mode is AwaitTruth && !(ev is Truth)) ==> spec_step(m, ev)
            == fail(m.scopes, m.frames, ErrorView::UnexpectedEvent),
{
}

/// Printing a number or a string asks the runner to print it, pops the
/// print frame and goes on with nothing, leaving the scopes as they were.
pub proof fn law_print_continues(m: MachineView, ev: Event)
    requires
        m.frames.len() > 0,
        m.frames.last() is Print,
        m.mode matches ModeView::Value(v) && (v matches SpecValue::Num(Some(_)) || v matches SpecValue::Str(Some(_))),
    ensures
        spec_step(m, ev).0 == (MachineView {
            scopes: m.scopes,
            frames: m.frames.drop_last(),
            mode: ModeView::Value(SpecValue::Void),
        }),
        m.mode matches ModeView::Value(SpecValue::Num(Some(x))) ==> spec_step(m, ev).1 == ActionView::PrintNum(x),
        m.mode matches ModeView::Value(SpecValue::Str(Some(s))) ==> spec_step(m, ev).1 == ActionView::PrintStr(s),
{
}

/// The scopes other than the innermost one of `m` are still there, unchanged,
/// in `m2`, as far as `m2` reaches.
pub open spec fn outer_scopes_kept(m: MachineView, m2: MachineView) -> bool {
    forall|i: int| 0 <= i < m.scopes.len() - 1 && i < m2.scopes.len() ==> #[trigger] m2.scopes[i] == m.scopes[i]
}

proof fn lemma_enter_outer(sc: Seq<ScopeView>, fr: Seq<FrameView>, f: SpecFn, vals: Seq<SpecValue>, mode: ModeView)
    ensures
        outer_scopes_kept(MachineView { scopes: sc, frames: fr, mode: mode }, spec_enter(sc, fr, f, vals).0),
{
    let m = MachineView { scopes: sc, frames: fr, mode: mode };
    let m2 = spec_enter(sc, fr, f, vals).0;
    assert forall|i: int| 0 <= i < m.scopes.len() - 1 && i < m2.scopes.len() implies #[trigger] m2.scopes[i]
        == m.scopes[i] by {
        if let Ok(p) = declare_params(f.args, f.args.len() as int) {
            assert(m2.scopes[i] == sc[i]);
        }
    }
}

/// A step changes no scope but the innermost one: it may add a scope for a
/// call, drop the innermost one when a call ends, or change the innermost
/// one, and every scope outside it stays as it was.
pub proof fn law_step_keeps_outer_scopes(m: MachineView, ev: Event)
    requires
        m.scopes.len() > 0,
    ensures
        outer_scopes_kept(m, spec_step(m, ev).0),
{
    let m2 = spec_step(m, ev).0;
    let sc = m.scopes;
    let fr = m.frames;
    match m.mode {
        ModeView::Eval(n) => {
            let top = sc.last();
            if let SpecNode::Call(name, params) = n {
                if let SpecToken::Id(x) = name {
                    if x != print_name() && top.fns.contains_key(x) && top.fns[x].args.len() == params.len()
                        && params.len() == 0 {
                        lemma_enter_outer(sc, fr, top.fns[x], seq![], m.mode);
                    }
                }
            }
            assert forall|i: int| 0 <= i < m.scopes.len() - 1 && i < m2.scopes.len() implies #[trigger] m2.scopes[i]
                == m.scopes[i] by {
                if !(n is Call) {
                    assert(with_top(sc, sc.last()).len() == sc.len());
                }
            }
        },
        ModeView::Value(v) => {
            if fr.len() > 0 {
                if let FrameView::Params(f, params, vals) = fr.last() {
                    lemma_enter_outer(sc, fr.drop_last(), f, vals.push(v), m.mode);
                }
            }
        },
        _ => {},
    }
}


/// Evaluating a conditional first sets aside its two branches in a frame
/// and evaluates the condition, leaving the scopes as they are.
pub proof fn law_if_starts_with_condition(m: MachineView, ev: Event)
    requires
        m.mode matches ModeView::Eval(SpecNode::If(_, _, _)),
    ensures
        ({
            let n = m.mode->Eval_0;
            spec_step(m, ev) == next(
                m.scopes,
                m.frames.push(FrameView::If(*n->If_1, *n->If_2)),
                ModeView::Eval(*n->If_0),
            )
        }),
{
}

/// A set boolean handed to a conditional's frame runs exactly the branch it
/// chooses: the frame, and with it the other branch, is dropped, and the
/// scopes stay as they are. Any other value stops the machine.
pub proof fn law_if_takes_chosen_branch(m: MachineView, ev: Event)
    requires
        m.frames.len() > 0,
        m.frames.last() is If,
        m.mode is Value,
    ensures
        ({
            let (t, e) = (m.frames.last()->If_0, m.frames.last()->If_1);
            match m.mode->Value_0 {
                SpecValue::Bool(Some(b)) => spec_step(m, ev) == next(
                    m.scopes,
                    m.frames.drop_last(),
                    ModeView::Eval(
                        if b {
                            t
                        } else {
                            e
                        },
                    ),
                ),
                SpecValue::Bool(None) => spec_step(m, ev) == fail(
                    m.scopes,
                    m.frames.drop_last(),
                    ErrorView::UndefinedCondition,
                ),
                _ => spec_step(m, ev) == fail(m.scopes, m.frames.drop_last(), ErrorView::NonBooleanCondition),
            }
        }),
{
}

/// The frames of `m` below its innermost one are still there, unchanged, in
/// `m2`, which has at most one frame fewer.
pub open spec fn lower_frames_kept(m: MachineView, m2: MachineView) -> bool {
    &&& m2.frames.len() + 1 >= m.frames.len()
    &&& forall|i: int| 0 <= i < m.frames.len() - 1 ==> i < m2.frames.len() && #[trigger] m2.frames[i] == m.frames[i]
}

proof fn lemma_kept_push(fr: Seq<FrameView>, base: Seq<FrameView>, x: FrameView)
    requires
        base == fr || (fr.len() > 0 && base == fr.drop_last()),
    ensures
        forall|i: int| 0 <= i < fr.len() - 1 ==> i < base.push(x).len() && #[trigger] base.push(x)[i] == fr[i],
        forall|i: int| 0 <= i < fr.len() - 1 ==> i < base.len() && #[trigger] base[i] == fr[i],
        base.len() + 1 >= fr.len(),
{
    assert forall|i: int| 0 <= i < fr.len() - 1 implies i < base.push(x).len() && #[trigger] base.push(x)[i]
        == fr[i] by {
        assert(base.push(x)[i] == base[i]);
    }
}

proof fn lemma_enter_frames(sc: Seq<ScopeView>, fr: Seq<FrameView>, f: SpecFn, vals: Seq<SpecValue>, m: MachineView)
    requires
        fr == m.frames || (m.frames.len() > 0 && fr == m.frames.drop_last()),
    ensures
        lower_frames_kept(m, spec_enter(sc, fr, f, vals).0),
{
    lemma_kept_push(m.frames, fr, FrameView::Body(body_items(f.body), 0));
}

/// A step touches no frame but the innermost one: it may drop it, replace
/// it, or add one above it, and every frame below stays as it was.
pub proof fn law_step_keeps_lower_frames(m: MachineView, ev: Event)
    ensures
        lower_frames_kept(m, spec_step(m, ev).0),
{
    let sc = m.scopes;
    let fr = m.frames;
    let d = FrameView::Print;
    lemma_kept_push(fr, fr, d);
    match m.mode {
        ModeView::Eval(n) => {
            let top = sc.last();
            match n {
                SpecNode::Prog(items) => lemma_kept_push(fr, fr, FrameView::Block(items, 1)),
                SpecNode::Binary(l, op, r) => {
                    if let Some(k) = spec_op_code(op) {
                        if let SpecNode::ID(name) = *l {
                            lemma_kept_push(fr, fr, FrameView::Assign(name));
                        }
                        lemma_kept_push(fr, fr, FrameView::LeftBinary(*r, k));
                    }
                },
                SpecNode::If(c, t, e) => lemma_kept_push(fr, fr, FrameView::If(*t, *e)),
                SpecNode::Call(name, params) => {
                    if let SpecToken::Id(x) = name {
                        if top.fns.contains_key(x) {
                            lemma_enter_frames(sc, fr, top.fns[x], seq![], m);
                            lemma_kept_push(fr, fr, FrameView::Params(top.fns[x], params, seq![]));
                        }
                    }
                },
                _ => {},
            }
        },
        ModeView::Value(v) => {
            if fr.len() > 0 {
                let rest = fr.drop_last();
                lemma_kept_push(fr, rest, d);
                match fr.last() {
                    FrameView::Block(items, k) => lemma_kept_push(fr, rest, FrameView::Block(items, k + 1)),
                    FrameView::LeftBinary(r, op) => lemma_kept_push(fr, rest, FrameView::RightBinary(v, op)),
                    FrameView::Params(f, params, vals) => {
                        lemma_kept_push(fr, rest, FrameView::Params(f, params, vals.push(v)));
                        lemma_enter_frames(sc, rest, f, vals.push(v), m);
                    },
                    FrameView::Body(items, k) => {
                        lemma_kept_push(fr, rest, FrameView::Returning);
                        lemma_kept_push(fr, rest, FrameView::Body(items, k + 1));
                    },
                    _ => {},
                }
            }
        },
        _ => {},
    }
}

/// The machine after running one step for each of the events in turn.
pub open spec fn run(m: MachineView, evs: Seq<Event>) -> MachineView
    decreases evs.len(),
{
    if evs.len() == 0 {
        m
    } else {
        run(spec_step(m, evs[0]).0, evs.drop_first())
    }
}

proof fn lemma_run_first(m: MachineView, evs: Seq<Event>, j: int)
    requires
        0 <= j < evs.len(),
    ensures
        run(m, evs.take(j + 1)) == run(spec_step(m, evs[0]).0, evs.drop_first().take(j)),
{
    assert(evs.take(j + 1).drop_first() =~= evs.drop_first().take(j));
    assert(evs.take(j + 1)[0] == evs[0]);
}

/// A frame stays as it is over a run in which, before each step, some frame
/// stands above it. So while the condition of a conditional is evaluated,
/// the frame that holds its two branches is untouched, and neither branch
/// runs before the condition's value reaches that frame.
pub proof fn law_run_keeps_frame(m: MachineView, evs: Seq<Event>, k: int)
    requires
        0 <= k < m.frames.len(),
        forall|j: int| 0 <= j < evs.len() ==> #[trigger] run(m, evs.take(j)).frames.len() > k + 1,
    ensures
        run(m, evs).frames.len() > k,
        run(m, evs).frames[k] == m.frames[k],
    decreases evs.len(),
{
    if evs.len() > 0 {
        assert(evs.take(0) =~= Seq::<Event>::empty());
        assert(run(m, evs.take(0)).frames.len() > k + 1);
        let m1 = spec_step(m, evs[0]).0;
        law_step_keeps_lower_frames(m, evs[0]);
        let rest = evs.drop_first();
        assert forall|j: int| 0 <= j < rest.len() implies #[trigger] run(m1, rest.take(j)).frames.len() > k + 1 by {
            lemma_run_first(m, evs, j);
            assert(run(m, evs.take(j + 1)).frames.len() > k + 1);
        }
        law_run_keeps_frame(m1, rest, k);
    }
}


/// The name that a parameter declaration declares.
pub open spec fn param_name(n: SpecNode) -> Seq<char> {
    match n {
        SpecNode::Dec(SpecToken::Id(x), _) => x,
        _ => Seq::empty(),
    }
}

proof fn lemma_params_are_decs(args: Seq<SpecNode>, n: int, k: int)
    requires
        0 <= k < n,
        declare_params(args, n) is Ok,
    ensures
        args[k] matches SpecNode::Dec(SpecToken::Id(_), SpecToken::Id(_)),
{
    lemma_declare_params_ok(args, k + 1, n);
}

proof fn lemma_assign_params_binds(
    args: Seq<SpecNode>,
    vals: Seq<SpecValue>,
    k: int,
    m: Map<Seq<char>, SpecValue>,
    i: int,
)
    requires
        0 <= i < k <= args.len(),
        forall|j: int| 0 <= j < k ==> (#[trigger] args[j]) matches SpecNode::Dec(SpecToken::Id(_), _),
        forall|a: int, b: int| 0 <= a < b < k ==> param_name(#[trigger] args[a]) != param_name(#[trigger] args[b]),
    ensures
        assign_params(args, vals, k, m).contains_key(param_name(args[i])),
        assign_params(args, vals, k, m)[param_name(args[i])] == vals[i],
    decreases k,
{
    assert(args[k - 1] matches SpecNode::Dec(SpecToken::Id(_), _));
    if i < k - 1 {
        lemma_assign_params_binds(args, vals, k - 1, m, i);
        assert(param_name(args[i]) != param_name(args[k - 1]));
    }
}

/// Entering a call binds each parameter to the argument in the same place:
/// in the new innermost scope, the name declared by the `i`-th parameter
/// holds the `i`-th argument value, for parameters with distinct names.
pub proof fn law_call_binds_arguments(
    sc: Seq<ScopeView>,
    fr: Seq<FrameView>,
    f: SpecFn,
    vals: Seq<SpecValue>,
    i: int,
)
    requires
        declare_params(f.args, f.args.len() as int) is Ok,
        vals.len() == f.args.len(),
        forall|a: int, b: int|
            0 <= a < b < f.args.len() ==> param_name(#[trigger] f.args[a]) != param_name(#[trigger] f.args[b]),
        0 <= i < f.args.len(),
    ensures
        spec_enter(sc, fr, f, vals).0.scopes.len() == sc.len() + 1,
        spec_enter(sc, fr, f, vals).0.scopes.last().vars.contains_key(param_name(f.args[i])),
        spec_enter(sc, fr, f, vals).0.scopes.last().vars[param_name(f.args[i])] == vals[i],
{
    let n = f.args.len() as int;
    assert forall|j: int| 0 <= j < n implies (#[trigger] f.args[j]) matches SpecNode::Dec(SpecToken::Id(_), _) by {
        lemma_params_are_decs(f.args, n, j);
    }
    let m = declare_params(f.args, n)->Ok_0;
    lemma_assign_params_binds(f.args, vals, n, m, i);
}

/// On two defined numbers, a numeric operator (codes 3 to 13) is handed on
/// with the left operand first and the right operand second.
pub proof fn law_numeric_operands_in_order(op: int, a: u64, b: u64)
    requires
        3 <= op <= 13,
    ensures
        spec_apply_op(op, SpecValue::Num(Some(a)), SpecValue::Num(Some(b))) == Ok::<SpecOpOutcome, ErrorView>(
            SpecOpOutcome::Numeric(op, a, b),
        ),
{
}

/// On two defined booleans, `||` (code 1) gives their disjunction and `&&`
/// (code 2) their conjunction; where the left operand decides, the right one
/// is not looked at, whatever it is.
pub proof fn law_logical_operators(a: bool, b: bool, r: SpecValue)
    ensures
        spec_apply_op(1, SpecValue::Bool(Some(a)), SpecValue::Bool(Some(b))) == Ok::<SpecOpOutcome, ErrorView>(
            SpecOpOutcome::Value(SpecValue::Bool(Some(a || b))),
        ),
        spec_apply_op(2, SpecValue::Bool(Some(a)), SpecValue::Bool(Some(b))) == Ok::<SpecOpOutcome, ErrorView>(
            SpecOpOutcome::Value(SpecValue::Bool(Some(a && b))),
        ),
        spec_apply_op(1, SpecValue::Bool(Some(true)), r) == Ok::<SpecOpOutcome, ErrorView>(
            SpecOpOutcome::Value(SpecValue::Bool(Some(true))),
        ),
        spec_apply_op(2, SpecValue::Bool(Some(false)), r) == Ok::<SpecOpOutcome, ErrorView>(
            SpecOpOutcome::Value(SpecValue::Bool(Some(false))),
        ),
{
}

} // verus!
