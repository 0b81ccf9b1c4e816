use vstd::prelude::*;
use vstd::hash_map::StringHashMap;

use crate::parser::{Node, SpecNode, nodes_view, str_eq, copy_nodes};

verus! {

/// Where a scope's enclosing scope is.
pub enum EnvParent<'a> {
    Parent(&'a Envir<'a>),
    NoParent,
}

/// A scope: its variables, its functions and its enclosing scope.
pub struct Envir<'a> {
    pub is_root: bool,
    pub vars: StringHashMap<TypeContent>,
    pub fns: StringHashMap<FnContent>,
    pub parent: EnvParent<'a>,
}

impl Envir<'static> {
    /// An empty root scope.
    pub fn new_root() -> (r: Envir<'static>)
        ensures
            r.is_root,
            r.parent == EnvParent::NoParent,
            r.vars@ == Map::<Seq<char>, TypeContent>::empty(),
            r.fns@ == Map::<Seq<char>, FnContent>::empty(),
    {
        Envir { is_root: true, vars: StringHashMap::new(), fns: StringHashMap::new(), parent: EnvParent::NoParent }
    }
}

/// A defined function: its parameter declarations, its result type and its
/// body.
#[derive(Debug)]
pub struct FnContent {
    pub args: Box<Vec<Node>>,
    pub typ: Types,
    pub body: Node,
}

/// The value of a defined function.
pub struct SpecFn {
    pub args: Seq<SpecNode>,
    pub typ: Types,
    pub body: SpecNode,
}

impl View for FnContent {
    type V = SpecFn;

    open spec fn view(&self) -> SpecFn {
        SpecFn { args: nodes_view(*self.args), typ: self.typ, body: self.body@ }
    }
}

/// A number variable's content: the bit pattern of an IEEE 754
/// double-precision value, or not yet set.
#[derive(Debug, Clone, Copy, PartialEq, Eq, Structural)]
pub enum F64Vals {
    Defined(u64),
    Undefined,
}

/// A boolean variable's content.
#[derive(Debug, Clone, Copy, PartialEq, Eq, Structural)]
pub enum BoolVals {
    Defined(bool),
    Undefined,
}

/// A string variable's content.
#[derive(Debug)]
pub enum StrVals {
    Defined(String),
    Undefined,
}

/// A value of the language, with its type.
#[allow(non_camel_case_types)]
#[derive(Debug)]
pub enum TypeContent {
    F64(F64Vals),
    bool(BoolVals),
    str(StrVals),
    void,
}

/// The types of the language.
#[allow(non_camel_case_types)]
#[derive(Debug, Clone, Copy, PartialEq, Eq, Structural)]
pub enum Types {
    F64,
    bool,
    str,
    void,
}

impl Clone for StrVals {
    fn clone(&self) -> (r: Self)
        ensures
            r == *self,
    {
        match self {
            StrVals::Defined(s) => StrVals::Defined(s.clone()),
            StrVals::Undefined => StrVals::Undefined,
        }
    }
}

impl Clone for TypeContent {
    fn clone(&self) -> (r: Self)
        ensures
            r == *self,
    {
        match self {
            TypeContent::F64(x) => TypeContent::F64(*x),
            TypeContent::bool(x) => TypeContent::bool(*x),
            TypeContent::str(x) => TypeContent::str(x.clone()),
            TypeContent::void => TypeContent::void,
        }
    }
}

impl Clone for FnContent {
    fn clone(&self) -> (r: Self)
        ensures
            r@ == self@,
    {
        let args = copy_nodes(&self.args);
        FnContent { args: Box::new(args), typ: self.typ, body: self.body.clone() }
    }
}

/// The mathematical value of a value of the language.
pub enum SpecValue {
    Num(Option<u64>),
    Bool(Option<bool>),
    Str(Option<Seq<char>>),
    Void,
}

impl View for TypeContent {
    type V = SpecValue;

    open spec fn view(&self) -> SpecValue {
        match self {
            TypeContent::F64(F64Vals::Defined(x)) => SpecValue::Num(Some(*x)),
            TypeContent::F64(F64Vals::Undefined) => SpecValue::Num(None),
            TypeContent::bool(BoolVals::Defined(b)) => SpecValue::Bool(Some(*b)),
            TypeContent::bool(BoolVals::Undefined) => SpecValue::Bool(None),
            TypeContent::str(StrVals::Defined(s)) => SpecValue::Str(Some(s@)),
            TypeContent::str(StrVals::Undefined) => SpecValue::Str(None),
            TypeContent::void => SpecValue::Void,
        }
    }
}

/// Why an operation on scopes failed.
#[derive(Debug)]
pub enum EnvError {
    /// The scope has no variable of this name.
    UndefinedVariable(String),
    /// The variable has been declared but holds no value.
    UnsetVariable(String),
    /// The scope has no function of this name.
    UndefinedFunction(String),
    /// The type name is not one of `f64`, `bool`, `str`, `void`.
    UnknownType(String),
}

impl Clone for EnvError {
    fn clone(&self) -> (r: Self)
        ensures
            r == *self,
    {
        match self {
            EnvError::UndefinedVariable(s) => EnvError::UndefinedVariable(s.clone()),
            EnvError::UnsetVariable(s) => EnvError::UnsetVariable(s.clone()),
            EnvError::UndefinedFunction(s) => EnvError::UndefinedFunction(s.clone()),
            EnvError::UnknownType(s) => EnvError::UnknownType(s.clone()),
        }
    }
}

/// Whether a value is missing: an unset variable's content, or `void`.
pub open spec fn spec_is_undef(x: TypeContent) -> bool {
    match x {
        TypeContent::F64(y) => y is Undefined,
        TypeContent::bool(y) => y is Undefined,
        TypeContent::str(y) => y is Undefined,
        TypeContent::void => true,
    }
}

/// The type that a type name denotes.
pub open spec fn type_named(t: Seq<char>) -> Option<Types> {
    if t == "f64"@ {
        Some(Types::F64)
    } else if t == "bool"@ {
        Some(Types::bool)
    } else if t == "str"@ {
        Some(Types::str)
    } else if t == "void"@ {
        Some(Types::void)
    } else {
        None
    }
}

/// The content of a freshly declared variable of type `t`: unset, or `void`.
pub open spec fn initial_content(t: Types) -> TypeContent {
    match t {
        Types::F64 => TypeContent::F64(F64Vals::Undefined),
        Types::bool => TypeContent::bool(BoolVals::Undefined),
        Types::str => TypeContent::str(StrVals::Undefined),
        Types::void => TypeContent::void,
    }
}

/// The scope `d` steps up the chain from `e`.
pub open spec fn ancestor(e: Envir, d: nat) -> Envir
    decreases d,
{
    if d == 0 {
        e
    } else {
        match e.parent {
            EnvParent::Parent(p) => ancestor(*p, (d - 1) as nat),
            EnvParent::NoParent => e,
        }
    }
}

/// How many steps up the chain from `e` the search for a variable stops at a
/// scope that defines it. The search stops without a result at the root, or
/// at a scope with no enclosing scope.
pub open spec fn var_scope(e: Envir, name: Seq<char>) -> Option<nat>
    decreases e,
{
    if e.vars@.contains_key(name) {
        Some(0)
    } else if e.is_root {
        None
    } else {
        match e.parent {
            EnvParent::Parent(p) => match var_scope(*p, name) {
                Some(d) => Some(d + 1),
                None => None,
            },
            EnvParent::NoParent => None,
        }
    }
}

/// The same search, for functions.
pub open spec fn fn_scope(e: Envir, name: Seq<char>) -> Option<nat>
    decreases e,
{
    if e.fns@.contains_key(name) {
        Some(0)
    } else if e.is_root {
        None
    } else {
        match e.parent {
            EnvParent::Parent(p) => match fn_scope(*p, name) {
                Some(d) => Some(d + 1),
                None => None,
            },
            EnvParent::NoParent => None,
        }
    }
}

/// The length of the chain of enclosing scopes.
pub open spec fn chain_len(e: Envir) -> nat
    decreases e,
{
    match e.parent {
        EnvParent::Parent(p) => 1 + chain_len(*p),
        EnvParent::NoParent => 0,
    }
}

/// Finds the scope, from `e` up the chain, in which a variable is defined.
pub fn env_lookup<'a>(e: &'a Envir<'a>, name: String) -> (r: Result<&'a Envir<'a>, bool>)
    ensures
        match var_scope(*e, name@) {
            Some(d) => r matches Ok(s) && *s == ancestor(*e, d),
            None => r == Err::<&Envir, bool>(false),
        },
{
    let mut current = e;
    let ghost mut d: nat = 0;
    while !current.is_root
        invariant
            *current == ancestor(*e, d),
            var_scope(*e, name@) == match var_scope(*current, name@) {
                Some(k) => Some(k + d),
                None => None,
            },
        decreases chain_len(*current),
    {
        if current.vars.contains_key(name.as_str()) {
            return Ok(current);
        }
        match current.parent {
            EnvParent::NoParent => {
                return Err(false);
            },
            EnvParent::Parent(x) => {
                proof {
                    lemma_ancestor_step(*e, d);
                    d = d + 1;
                }
                current = x;
            },
        }
    }
    if current.vars.contains_key(name.as_str()) {
        return Ok(current);
    }
    Err(false)
}

proof fn lemma_ancestor_step(e: Envir, d: nat)
    requires
        ancestor(e, d).parent is Parent,
    ensures
        ancestor(e, d + 1) == *(ancestor(e, d).parent->Parent_0),
    decreases d,
{
    match e.parent {
        EnvParent::Parent(p) => {
            assert(ancestor(e, d + 1) == ancestor(*p, d));
            if d > 0 {
                lemma_ancestor_step(*p, (d - 1) as nat);
            }
        },
        EnvParent::NoParent => {},
    }
}

/// Whether a value is missing.
pub fn is_undef(x: TypeContent) -> (r: bool)
    ensures
        r == spec_is_undef(x),
{
    match x {
        TypeContent::F64(y) => !matches!(y, F64Vals::Defined(_)),
        TypeContent::bool(y) => !matches!(y, BoolVals::Defined(_)),
        TypeContent::str(y) => !matches!(y, StrVals::Defined(_)),
        TypeContent::void => true,
    }
}

/// What reading a variable gives.
pub enum ReadOutcome {
    /// The variable's value.
    Value(TypeContent),
    /// No variable of that name is declared.
    Undeclared,
    /// The variable is declared but holds no value.
    Unset,
}

/// What reading `name` from the variables `vars` gives.
pub open spec fn read_var(vars: Map<Seq<char>, TypeContent>, name: Seq<char>) -> ReadOutcome {
    if !vars.contains_key(name) {
        ReadOutcome::Undeclared
    } else if spec_is_undef(vars[name]) {
        ReadOutcome::Unset
    } else {
        ReadOutcome::Value(vars[name])
    }
}

/// The variables after writing `v` to `name`; `None` where no such variable
/// is declared.
pub open spec fn write_var(vars: Map<Seq<char>, TypeContent>, name: Seq<char>, v: TypeContent) -> Option<
    Map<Seq<char>, TypeContent>,
> {
    if vars.contains_key(name) {
        Some(vars.insert(name, v))
    } else {
        None
    }
}

/// The variables after declaring `name` of the type named `typ`; `None` where
/// `typ` names no type.
pub open spec fn declare_var(vars: Map<Seq<char>, TypeContent>, name: Seq<char>, typ: Seq<char>) -> Option<
    Map<Seq<char>, TypeContent>,
> {
    match type_named(typ) {
        Some(t) => Some(vars.insert(name, initial_content(t))),
        None => None,
    }
}

/// Reads a variable of this scope (enclosing scopes are not searched). The
/// variable must be declared and hold a value.
pub fn env_get(e: &Envir, name: String) -> (r: TypeContent)
    requires
        read_var(e.vars@, name@) is Value,
    ensures
        read_var(e.vars@, name@) == ReadOutcome::Value(r),
{
    match e.vars.get(name.as_str()) {
        Some(x) => x.clone(),
        None => {
            proof {
                assert(false);
            }
            TypeContent::void
        },
    }
}

/// Writes a declared variable of this scope (enclosing scopes are not
/// searched).
pub fn env_set<'a>(e: &mut Envir<'a>, name: String, l: TypeContent)
    requires
        old(e).vars@.contains_key(name@),
    ensures
        final(e).is_root == old(e).is_root,
        final(e).fns@ == old(e).fns@,
        final(e).parent == old(e).parent,
        write_var(old(e).vars@, name@, l) == Some(final(e).vars@),
{
    e.vars.insert(name, l);
}

/// The type named by `typ`.
pub fn type_of_name(typ: &String) -> (r: Option<Types>)
    ensures
        r == type_named(typ@),
{
    let t = typ.as_str();
    if str_eq(t, "f64") {
        Some(Types::F64)
    } else if str_eq(t, "bool") {
        Some(Types::bool)
    } else if str_eq(t, "str") {
        Some(Types::str)
    } else if str_eq(t, "void") {
        Some(Types::void)
    } else {
        None
    }
}

/// Declares a variable of this scope, of the type named by `typ` (one of
/// `f64`, `bool`, `str`, `void`), with no value yet; a declaration replaces
/// an earlier one of the same name.
pub fn env_def(e: &mut Envir, name: String, typ: String)
    requires
        type_named(typ@) is Some,
    ensures
        final(e).is_root == old(e).is_root,
        final(e).fns@ == old(e).fns@,
        final(e).parent == old(e).parent,
        declare_var(old(e).vars@, name@, typ@) == Some(final(e).vars@),
{
    let x = match type_of_name(&typ) {
        Some(Types::F64) => TypeContent::F64(F64Vals::Undefined),
        Some(Types::bool) => TypeContent::bool(BoolVals::Undefined),
        Some(Types::str) => TypeContent::str(StrVals::Undefined),
        Some(Types::void) => TypeContent::void,
        None => TypeContent::void,
    };
    e.vars.insert(name, x);
}

/// A new, empty scope inside `e`.
pub fn env_extend<'a>(e: &'a Envir<'a>) -> (r: Envir<'a>)
    ensures
        !r.is_root,
        r.parent == EnvParent::Parent(e),
        r.vars@ == Map::<Seq<char>, TypeContent>::empty(),
        r.fns@ == Map::<Seq<char>, FnContent>::empty(),
{
    Envir {
        is_root: false,
        parent: EnvParent::Parent(e),
        vars: StringHashMap::new(),
        fns: StringHashMap::new(),
    }
}

/// Finds the scope, from `e` up the chain, in which a function is defined.
pub fn fenv_lookup<'a>(e: &'a Envir<'a>, name: String) -> (r: Result<&'a Envir<'a>, bool>)
    ensures
        match fn_scope(*e, name@) {
            Some(d) => r matches Ok(s) && *s == ancestor(*e, d),
            None => r == Err::<&Envir, bool>(false),
        },
{
    let mut current = e;
    let ghost mut d: nat = 0;
    while !current.is_root
        invariant
            *current == ancestor(*e, d),
            fn_scope(*e, name@) == match fn_scope(*current, name@) {
                Some(k) => Some(k + d),
                None => None,
            },
        decreases chain_len(*current),
    {
        if current.fns.contains_key(name.as_str()) {
            return Ok(current);
        }
        match current.parent {
            EnvParent::NoParent => {
                return Err(false);
            },
            EnvParent::Parent(x) => {
                proof {
                    lemma_ancestor_step(*e, d);
                    d = d + 1;
                }
                current = x;
            },
        }
    }
    if current.fns.contains_key(name.as_str()) {
        return Ok(current);
    }
    Err(false)
}

/// Reads a defined function of this scope (enclosing scopes are not
/// searched).
pub fn fenv_get(e: &Envir, name: String) -> (r: FnContent)
    requires
        e.fns@.contains_key(name@),
    ensures
        r@ == e.fns@[name@]@,
{
    match e.fns.get(name.as_str()) {
        Some(x) => x.clone(),
        None => {
            proof {
                assert(false);
            }
            FnContent { args: Box::new(Vec::new()), typ: Types::void, body: Node::Null }
        },
    }
}

/// Defines a function of this scope, with the result type named by `typ`
/// (one of `f64`, `bool`, `str`, `void`); a definition replaces an earlier
/// one of the same name.
pub fn fenv_def(e: &mut Envir, name: String, typ: String, args: Box<Vec<Node>>, prog: Node)
    requires
        type_named(typ@) is Some,
    ensures
        final(e).is_root == old(e).is_root,
        final(e).vars@ == old(e).vars@,
        final(e).parent == old(e).parent,
        final(e).fns@ == old(e).fns@.insert(
            name@,
            (FnContent { args: args, typ: type_named(typ@)->0, body: prog }),
        ),
{
    let x = match type_of_name(&typ) {
        Some(t) => t,
        None => Types::void,
    };
    e.fns.insert(name, FnContent { args: args, body: prog, typ: x });
}

/// A variable just declared holds no value.
pub proof fn law_declare_then_read(vars: Map<Seq<char>, TypeContent>, name: Seq<char>, typ: Seq<char>)
    requires
        declare_var(vars, name, typ) is Some,
    ensures
        read_var(declare_var(vars, name, typ)->0, name) is Unset,
{
}

/// Reading a variable gives back what was last written to it, and `Unset`
/// where that was a missing value.
pub proof fn law_write_then_read(
    vars: Map<Seq<char>, TypeContent>,
    name: Seq<char>,
    v: TypeContent,
)
    requires
        write_var(vars, name, v) is Some,
    ensures
        !spec_is_undef(v) ==> read_var(write_var(vars, name, v)->0, name) == ReadOutcome::Value(v),
        spec_is_undef(v) ==> read_var(write_var(vars, name, v)->0, name) is Unset,
{
}

/// Writing a variable leaves every other variable as it was.
pub proof fn law_write_keeps_others(
    vars: Map<Seq<char>, TypeContent>,
    name: Seq<char>,
    v: TypeContent,
    other: Seq<char>,
)
    requires
        write_var(vars, name, v) is Some,
        other != name,
    ensures
        read_var(write_var(vars, name, v)->0, other) == read_var(vars, other),
{
}

/// A write succeeds exactly on a declared variable, and never declares one.
pub proof fn law_write_needs_declaration(
    vars: Map<Seq<char>, TypeContent>,
    name: Seq<char>,
    v: TypeContent,
)
    ensures
        write_var(vars, name, v) is None <==> read_var(vars, name) is Undeclared,
        write_var(vars, name, v) matches Some(m) ==> m.dom() == vars.dom(),
{
    if let Some(m) = write_var(vars, name, v) {
        assert(m.dom() =~= vars.dom());
    }
}

/// A new scope defines nothing itself: a search from it finds what a search
/// from the enclosing scope finds, one step further up.
pub proof fn law_extend_lookup(child: Envir, parent: Envir, name: Seq<char>)
    requires
        !child.is_root,
        child.parent == EnvParent::Parent(&parent),
        child.vars@ == Map::<Seq<char>, TypeContent>::empty(),
        child.fns@ == Map::<Seq<char>, FnContent>::empty(),
    ensures
        var_scope(child, name) == match var_scope(parent, name) {
            Some(d) => Some(d + 1),
            None => None::<nat>,
        },
        fn_scope(child, name) == match fn_scope(parent, name) {
            Some(d) => Some(d + 1),
            None => None::<nat>,
        },
{
}


/// A variable lookup finds the nearest scope that declares the name: the
/// scope it starts from where that declares it, and otherwise no scope
/// between the start and the one found declares it.
pub proof fn law_lookup_finds_nearest(e: Envir, name: Seq<char>)
    ensures
        e.vars@.contains_key(name) ==> var_scope(e, name) == Some(0nat),
        var_scope(e, name) matches Some(d) ==> ancestor(e, d).vars@.contains_key(name),
        var_scope(e, name) matches Some(d) ==> forall|k: nat|
            k < d ==> !(#[trigger] ancestor(e, k)).vars@.contains_key(name),
    decreases e,
{
    if !e.vars@.contains_key(name) && !e.is_root {
        if let EnvParent::Parent(p) = e.parent {
            law_lookup_finds_nearest(*p, name);
            if let Some(d) = var_scope(*p, name) {
                assert(ancestor(e, d + 1) == ancestor(*p, d));
                assert forall|k: nat| k < d + 1 implies !(#[trigger] ancestor(e, k)).vars@.contains_key(name) by {
                    if k > 0 {
                        assert(ancestor(e, k) == ancestor(*p, (k - 1) as nat));
                    }
                }
            }
        }
    }
}

/// A function lookup finds the nearest scope that defines the name, in the
/// same way.
pub proof fn law_fn_lookup_finds_nearest(e: Envir, name: Seq<char>)
    ensures
        e.fns@.contains_key(name) ==> fn_scope(e, name) == Some(0nat),
        fn_scope(e, name) matches Some(d) ==> ancestor(e, d).fns@.contains_key(name),
        fn_scope(e, name) matches Some(d) ==> forall|k: nat|
            k < d ==> !(#[trigger] ancestor(e, k)).fns@.contains_key(name),
    decreases e,
{
    if !e.fns@.contains_key(name) && !e.is_root {
        if let EnvParent::Parent(p) = e.parent {
            law_fn_lookup_finds_nearest(*p, name);
            if let Some(d) = fn_scope(*p, name) {
                assert(ancestor(e, d + 1) == ancestor(*p, d));
                assert forall|k: nat| k < d + 1 implies !(#[trigger] ancestor(e, k)).fns@.contains_key(name) by {
                    if k > 0 {
                        assert(ancestor(e, k) == ancestor(*p, (k - 1) as nat));
                    }
                }
            }
        }
    }
}

} // verus!
