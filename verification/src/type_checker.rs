use vstd::prelude::*;
use crate::ast::{
    ast_view,
    exp_view, exp_view_seq, field_view_seq, lemma_exp_view_seq, lemma_field_view_seq,
    lemma_stmt_view_seq, lemma_var_view_seq, stmt_view, stmt_view_seq, var_view, ExpV, ItemV,
    StmtV, AST, Exp, Statement, Var,
};
use crate::types::{type_eq, Type, TypeV};

verus! {

// ---------------------------------------------------------------------------
// Errors
// ---------------------------------------------------------------------------

/// The offending node of a type mismatch, named by its role in the tree and
/// the names at hand: this is what locates the error for the caller, since
/// the tree carries no source positions.
#[derive(Debug, PartialEq, Eq)]
pub enum ErrorNode {
    /// The `let` binding of this name.
    Assignment(String),
    /// The expression of a `return` statement.
    ReturnValue,
    /// The condition of an `if`, `elif` or `while`.
    Condition,
    /// The operand of unary minus.
    NegateOperand,
    /// The operand of `!`.
    NotOperand,
    /// The left operand of this binary operator.
    LeftOperand(crate::ast::Operation),
    /// The right operand of this binary operator.
    RightOperand(crate::ast::Operation),
    /// An argument, counted from zero, of a call of this function.
    Argument(String, usize),
    /// A field of a struct literal of this name.
    Field(String, String),
    /// An item, counted from zero, of a list literal.
    ListItem(usize),
}

pub ghost enum ErrorNodeV {
    Assignment(Seq<char>),
    ReturnValue,
    Condition,
    NegateOperand,
    NotOperand,
    LeftOperand(crate::ast::Operation),
    RightOperand(crate::ast::Operation),
    Argument(Seq<char>, int),
    Field(Seq<char>, Seq<char>),
    ListItem(int),
}

impl View for ErrorNode {
    type V = ErrorNodeV;

    open spec fn view(&self) -> ErrorNodeV {
        match self {
            ErrorNode::Assignment(n) => ErrorNodeV::Assignment(n@),
            ErrorNode::ReturnValue => ErrorNodeV::ReturnValue,
            ErrorNode::Condition => ErrorNodeV::Condition,
            ErrorNode::NegateOperand => ErrorNodeV::NegateOperand,
            ErrorNode::NotOperand => ErrorNodeV::NotOperand,
            ErrorNode::LeftOperand(op) => ErrorNodeV::LeftOperand(*op),
            ErrorNode::RightOperand(op) => ErrorNodeV::RightOperand(*op),
            ErrorNode::Argument(n, k) => ErrorNodeV::Argument(n@, *k as int),
            ErrorNode::Field(n, f) => ErrorNodeV::Field(n@, f@),
            ErrorNode::ListItem(k) => ErrorNodeV::ListItem(*k as int),
        }
    }
}

/// A failure of the type-checking pass, naming the offending node and what
/// was expected and found there.
#[derive(Debug, PartialEq, Eq)]
pub enum TypeError {
    /// An expression's type differs from the type its context demands.
    Mismatch { node: ErrorNode, expected: Type, found: Type },
    /// A variable reference with no binding in scope.
    UndeclaredVariable(String),
    /// A struct literal for a name with no definition in scope.
    UndefinedStruct(String),
    /// A call of a function with no definition in scope.
    UndefinedFunction(String),
    /// A struct literal whose fields do not match the declaration: wrong
    /// count, wrong name, or wrong order.
    FieldMismatch(String),
    /// A call whose argument count differs from the declared parameters.
    ArityMismatch(String),
    /// A `for` loop over an expression that is not a list.
    NotAList(Type),
    /// A list literal whose declared element type has no list kind.
    InvalidListElement(Type),
}

pub ghost enum TypeErrorV {
    Mismatch { node: ErrorNodeV, expected: TypeV, found: TypeV },
    UndeclaredVariable(Seq<char>),
    UndefinedStruct(Seq<char>),
    UndefinedFunction(Seq<char>),
    FieldMismatch(Seq<char>),
    ArityMismatch(Seq<char>),
    NotAList(TypeV),
    InvalidListElement(TypeV),
}

impl View for TypeError {
    type V = TypeErrorV;

    open spec fn view(&self) -> TypeErrorV {
        match self {
            TypeError::Mismatch { node, expected, found } => TypeErrorV::Mismatch {
                node: node@,
                expected: expected@,
                found: found@,
            },
            TypeError::UndeclaredVariable(n) => TypeErrorV::UndeclaredVariable(n@),
            TypeError::UndefinedStruct(n) => TypeErrorV::UndefinedStruct(n@),
            TypeError::UndefinedFunction(n) => TypeErrorV::UndefinedFunction(n@),
            TypeError::FieldMismatch(n) => TypeErrorV::FieldMismatch(n@),
            TypeError::ArityMismatch(n) => TypeErrorV::ArityMismatch(n@),
            TypeError::NotAList(t) => TypeErrorV::NotAList(t@),
            TypeError::InvalidListElement(t) => TypeErrorV::InvalidListElement(t@),
        }
    }
}

// ---------------------------------------------------------------------------
// The typing context
// ---------------------------------------------------------------------------

/// A function signature as the checker records it.
#[derive(Debug, PartialEq, Eq)]
pub struct FuncSig {
    pub name: String,
    pub params: Vec<Type>,
    pub output: Type,
}

pub ghost struct FuncSigV {
    pub name: Seq<char>,
    pub params: Seq<TypeV>,
    pub output: TypeV,
}

impl View for FuncSig {
    type V = FuncSigV;

    open spec fn view(&self) -> FuncSigV {
        FuncSigV { name: self.name@, params: self.params.deep_view(), output: self.output@ }
    }
}

/// A struct definition as the checker records it: the name and the ordered
/// field names with their types.
#[derive(Debug, PartialEq, Eq)]
pub struct StructEntry {
    pub name: String,
    pub fields: Vec<(String, Type)>,
}

pub ghost struct StructEntryV {
    pub name: Seq<char>,
    pub fields: Seq<(Seq<char>, TypeV)>,
}

/// The model of a name-to-type list.
pub open spec fn pairs_view(v: Seq<(String, Type)>) -> Seq<(Seq<char>, TypeV)> {
    Seq::new(v.len(), |i: int| (v[i].0@, v[i].1@))
}

impl View for StructEntry {
    type V = StructEntryV;

    open spec fn view(&self) -> StructEntryV {
        StructEntryV { name: self.name@, fields: pairs_view(self.fields@) }
    }
}

/// The state of the checker: the variable bindings in scope, the struct
/// definitions seen so far, and the function signatures seen so far.  Later
/// entries shadow earlier ones of the same name.
#[derive(Debug)]
pub struct TypeContext {
    pub vars: Vec<(String, Type)>,
    pub structs: Vec<StructEntry>,
    pub funcs: Vec<FuncSig>,
}

pub ghost struct CtxV {
    pub vars: Seq<(Seq<char>, TypeV)>,
    pub structs: Seq<StructEntryV>,
    pub funcs: Seq<FuncSigV>,
}

pub open spec fn structs_view(v: Seq<StructEntry>) -> Seq<StructEntryV> {
    Seq::new(v.len(), |i: int| v[i]@)
}

pub open spec fn funcs_view(v: Seq<FuncSig>) -> Seq<FuncSigV> {
    Seq::new(v.len(), |i: int| v[i]@)
}

impl View for TypeContext {
    type V = CtxV;

    open spec fn view(&self) -> CtxV {
        CtxV {
            vars: pairs_view(self.vars@),
            structs: structs_view(self.structs@),
            funcs: funcs_view(self.funcs@),
        }
    }
}

// ---------------------------------------------------------------------------
// Lookups
// ---------------------------------------------------------------------------

/// The type bound to `name`, searching the latest binding first.
pub open spec fn lookup_var(vars: Seq<(Seq<char>, TypeV)>, name: Seq<char>) -> Option<TypeV>
    decreases vars.len(),
{
    if vars.len() == 0 {
        None
    } else if vars.last().0 == name {
        Some(vars.last().1)
    } else {
        lookup_var(vars.drop_last(), name)
    }
}

/// The struct definition for `name`, searching the latest first.
pub open spec fn lookup_struct(structs: Seq<StructEntryV>, name: Seq<char>) -> Option<StructEntryV>
    decreases structs.len(),
{
    if structs.len() == 0 {
        None
    } else if structs.last().name == name {
        Some(structs.last())
    } else {
        lookup_struct(structs.drop_last(), name)
    }
}

/// The function signature for `name`, searching the latest first.
pub open spec fn lookup_func(funcs: Seq<FuncSigV>, name: Seq<char>) -> Option<FuncSigV>
    decreases funcs.len(),
{
    if funcs.len() == 0 {
        None
    } else if funcs.last().name == name {
        Some(funcs.last())
    } else {
        lookup_func(funcs.drop_last(), name)
    }
}

// ---------------------------------------------------------------------------
// List kinds
// ---------------------------------------------------------------------------

/// The list type whose elements have type `elem`, if that kind exists.
pub open spec fn list_type_of(elem: TypeV) -> Option<TypeV> {
    match elem {
        TypeV::Int => Some(TypeV::ListInt),
        TypeV::Str => Some(TypeV::ListStr),
        TypeV::Bool => Some(TypeV::ListBool),
        TypeV::Struct(n) => Some(TypeV::ListStruct(n)),
        _ => None,
    }
}

/// The element type of a list type, if `t` is one.
pub open spec fn elem_type_of(t: TypeV) -> Option<TypeV> {
    match t {
        TypeV::ListInt => Some(TypeV::Int),
        TypeV::ListStr => Some(TypeV::Str),
        TypeV::ListBool => Some(TypeV::Bool),
        TypeV::ListStruct(n) => Some(TypeV::Struct(n)),
        _ => None,
    }
}

/// Whether `op` is one of the arithmetic operators, which take and yield
/// integers.
pub open spec fn is_arith_op(op: crate::ast::Operation) -> bool {
    op == crate::ast::Operation::Add || op == crate::ast::Operation::Subtract || op
        == crate::ast::Operation::Divide || op == crate::ast::Operation::Multiply || op
        == crate::ast::Operation::Modulo
}

/// Whether `op` is `&&` or `||`, which take and yield booleans.
pub open spec fn is_logic_op(op: crate::ast::Operation) -> bool {
    op == crate::ast::Operation::And || op == crate::ast::Operation::Or
}

// ---------------------------------------------------------------------------
// The typing rules
// ---------------------------------------------------------------------------

/// The type of an expression under `ctx`, or the first type error found in a
/// left-to-right, outside-in walk.
pub open spec fn spec_exp_type(ctx: CtxV, e: ExpV) -> Result<TypeV, TypeErrorV>
    decreases e,
{
    match e {
        ExpV::Var(name) => match lookup_var(ctx.vars, name) {
            Some(t) => Ok(t),
            None => Err(TypeErrorV::UndeclaredVariable(name)),
        },
        ExpV::Int(_) => Ok(TypeV::Int),
        ExpV::Str(_) => Ok(TypeV::Str),
        ExpV::Bool(_) => Ok(TypeV::Bool),
        ExpV::Call(name, args) => match lookup_func(ctx.funcs, name) {
            Some(sig) => if args.len() != sig.params.len() {
                Err(TypeErrorV::ArityMismatch(name))
            } else {
                match spec_args_check(ctx, args, sig.params, name, 0) {
                    Ok(_) => Ok(sig.output),
                    Err(er) => Err(er),
                }
            },
            None => Err(TypeErrorV::UndefinedFunction(name)),
        },
        ExpV::Negate(inner) => match spec_exp_type(ctx, *inner) {
            Ok(TypeV::Int) => Ok(TypeV::Int),
            Ok(t) => Err(
                TypeErrorV::Mismatch {
                    node: ErrorNodeV::NegateOperand,
                    expected: TypeV::Int,
                    found: t,
                },
            ),
            Err(er) => Err(er),
        },
        ExpV::Not(inner) => match spec_exp_type(ctx, *inner) {
            Ok(TypeV::Bool) => Ok(TypeV::Bool),
            Ok(t) => Err(
                TypeErrorV::Mismatch {
                    node: ErrorNodeV::NotOperand,
                    expected: TypeV::Bool,
                    found: t,
                },
            ),
            Err(er) => Err(er),
        },
        ExpV::Op(op, left, right) => match (spec_exp_type(ctx, *left), spec_exp_type(
            ctx,
            *right,
        )) {
            (Err(er), _) => Err(er),
            (Ok(_), Err(er)) => Err(er),
            (Ok(lt), Ok(rt)) => {
                if is_arith_op(op) {
                    if lt != TypeV::Int {
                        Err(
                            TypeErrorV::Mismatch {
                                node: ErrorNodeV::LeftOperand(op),
                                expected: TypeV::Int,
                                found: lt,
                            },
                        )
                    } else if rt != TypeV::Int {
                        Err(
                            TypeErrorV::Mismatch {
                                node: ErrorNodeV::RightOperand(op),
                                expected: TypeV::Int,
                                found: rt,
                            },
                        )
                    } else {
                        Ok(TypeV::Int)
                    }
                } else if is_logic_op(op) {
                    if lt != TypeV::Bool {
                        Err(
                            TypeErrorV::Mismatch {
                                node: ErrorNodeV::LeftOperand(op),
                                expected: TypeV::Bool,
                                found: lt,
                            },
                        )
                    } else if rt != TypeV::Bool {
                        Err(
                            TypeErrorV::Mismatch {
                                node: ErrorNodeV::RightOperand(op),
                                expected: TypeV::Bool,
                                found: rt,
                            },
                        )
                    } else {
                        Ok(TypeV::Bool)
                    }
                } else {
                    // comparisons: both operands of one type, yielding bool
                    if lt != rt {
                        Err(
                            TypeErrorV::Mismatch {
                                node: ErrorNodeV::RightOperand(op),
                                expected: lt,
                                found: rt,
                            },
                        )
                    } else {
                        Ok(TypeV::Bool)
                    }
                }
            },
        },
        ExpV::Struct(name, fields) => match lookup_struct(ctx.structs, name) {
            Some(decl) => spec_fields_check(ctx, fields, decl.fields, name),
            None => Err(TypeErrorV::UndefinedStruct(name)),
        },
        ExpV::List(elem, items) => match list_type_of(elem) {
            Some(lt) => match spec_items_check(ctx, items, elem, 0) {
                Ok(_) => Ok(lt),
                Err(er) => Err(er),
            },
            None => Err(TypeErrorV::InvalidListElement(elem)),
        },
        ExpV::HOF(param, body) => {
            let inner = CtxV {
                vars: ctx.vars.push((param.name, param.var_type)),
                structs: ctx.structs,
                funcs: ctx.funcs,
            };
            match spec_exp_type(inner, *body) {
                Ok(bt) => Ok(
                    TypeV::HigherOrderFunction(Box::new(param.var_type), Box::new(bt)),
                ),
                Err(er) => Err(er),
            }
        },
    }
}

/// Checks call arguments left to right against the declared parameter types.
pub open spec fn spec_args_check(
    ctx: CtxV,
    args: Seq<ExpV>,
    params: Seq<TypeV>,
    name: Seq<char>,
    idx: int,
) -> Result<(), TypeErrorV>
    decreases args,
{
    if args.len() == 0 {
        Ok(())
    } else {
        match spec_exp_type(ctx, args[0]) {
            Ok(t) => if params.len() > 0 && t == params[0] {
                spec_args_check(
                    ctx,
                    args.subrange(1, args.len() as int),
                    params.subrange(1, params.len() as int),
                    name,
                    idx + 1,
                )
            } else if params.len() > 0 {
                Err(
                    TypeErrorV::Mismatch {
                        node: ErrorNodeV::Argument(name, idx),
                        expected: params[0],
                        found: t,
                    },
                )
            } else {
                Ok(())
            },
            Err(er) => Err(er),
        }
    }
}

/// Checks a struct literal's bindings against the declared fields: same
/// count, same names in the same order, matching types.
pub open spec fn spec_fields_check(
    ctx: CtxV,
    fields: Seq<(Seq<char>, ExpV)>,
    decl: Seq<(Seq<char>, TypeV)>,
    name: Seq<char>,
) -> Result<TypeV, TypeErrorV>
    decreases fields,
{
    if fields.len() != decl.len() {
        Err(TypeErrorV::FieldMismatch(name))
    } else if fields.len() == 0 {
        Ok(TypeV::Struct(name))
    } else if fields[0].0 != decl[0].0 {
        Err(TypeErrorV::FieldMismatch(name))
    } else {
        match spec_exp_type(ctx, fields[0].1) {
            Ok(t) => if t == decl[0].1 {
                spec_fields_check(
                    ctx,
                    fields.subrange(1, fields.len() as int),
                    decl.subrange(1, decl.len() as int),
                    name,
                )
            } else {
                Err(
                    TypeErrorV::Mismatch {
                        node: ErrorNodeV::Field(name, decl[0].0),
                        expected: decl[0].1,
                        found: t,
                    },
                )
            },
            Err(er) => Err(er),
        }
    }
}

/// Checks each list item against the declared element type.
pub open spec fn spec_items_check(ctx: CtxV, items: Seq<ExpV>, elem: TypeV, idx: int) -> Result<
    (),
    TypeErrorV,
>
    decreases items,
{
    if items.len() == 0 {
        Ok(())
    } else {
        match spec_exp_type(ctx, items[0]) {
            Ok(t) => if t == elem {
                spec_items_check(ctx, items.subrange(1, items.len() as int), elem, idx + 1)
            } else {
                Err(
                    TypeErrorV::Mismatch {
                        node: ErrorNodeV::ListItem(idx),
                        expected: elem,
                        found: t,
                    },
                )
            },
            Err(er) => Err(er),
        }
    }
}

/// Checks one statement under `ctx`; `ret` is the output type of the
/// enclosing function, if any.  On success the context is extended with
/// whatever the statement declares.
pub open spec fn spec_stmt_check(ctx: CtxV, s: StmtV, ret: Option<TypeV>) -> Result<
    CtxV,
    TypeErrorV,
>
    decreases s,
{
    match s {
        StmtV::Assignment(v, e) => match spec_exp_type(ctx, e) {
            Ok(t) => if t == v.var_type {
                Ok(
                    CtxV {
                        vars: ctx.vars.push((v.name, v.var_type)),
                        structs: ctx.structs,
                        funcs: ctx.funcs,
                    },
                )
            } else {
                Err(
                    TypeErrorV::Mismatch {
                        node: ErrorNodeV::Assignment(v.name),
                        expected: v.var_type,
                        found: t,
                    },
                )
            },
            Err(er) => Err(er),
        },
        StmtV::Function(f) => {
            let sig = FuncSigV {
                name: f.name,
                params: Seq::new(f.param.len(), |i: int| f.param[i].var_type),
                output: f.output.var_type,
            };
            let inner = CtxV {
                vars: ctx.vars + Seq::new(f.param.len(), |i: int| (f.param[i].name, f.param[i].var_type)),
                structs: ctx.structs,
                funcs: ctx.funcs.push(sig),
            };
            match spec_block_check(inner, f.block, Some(f.output.var_type)) {
                Ok(_) => Ok(
                    CtxV { vars: ctx.vars, structs: ctx.structs, funcs: ctx.funcs.push(sig) },
                ),
                Err(er) => Err(er),
            }
        },
        StmtV::Return(e) => match spec_exp_type(ctx, e) {
            Ok(t) => match ret {
                Some(o) => if t == o {
                    Ok(ctx)
                } else {
                    Err(
                        TypeErrorV::Mismatch {
                            node: ErrorNodeV::ReturnValue,
                            expected: o,
                            found: t,
                        },
                    )
                },
                None => Ok(ctx),
            },
            Err(er) => Err(er),
        },
        StmtV::If(i) => match spec_exp_type(ctx, i.condition) {
            Ok(TypeV::Bool) => match spec_block_check(ctx, i.true_branch, ret) {
                Ok(_) => match i.false_branch {
                    Some(fb) => match spec_block_check(ctx, fb, ret) {
                        Ok(_) => Ok(ctx),
                        Err(er) => Err(er),
                    },
                    None => Ok(ctx),
                },
                Err(er) => Err(er),
            },
            Ok(t) => Err(
                TypeErrorV::Mismatch {
                    node: ErrorNodeV::Condition,
                    expected: TypeV::Bool,
                    found: t,
                },
            ),
            Err(er) => Err(er),
        },
        StmtV::For(f) => match spec_exp_type(ctx, f.list) {
            Ok(lt) => match elem_type_of(lt) {
                Some(et) => {
                    let inner = CtxV {
                        vars: ctx.vars.push((f.iter.name, et)),
                        structs: ctx.structs,
                        funcs: ctx.funcs,
                    };
                    match spec_block_check(inner, f.block, ret) {
                        Ok(_) => Ok(ctx),
                        Err(er) => Err(er),
                    }
                },
                None => Err(TypeErrorV::NotAList(lt)),
            },
            Err(er) => Err(er),
        },
        StmtV::While(w) => match spec_exp_type(ctx, w.condition) {
            Ok(TypeV::Bool) => match spec_block_check(ctx, w.block, ret) {
                Ok(_) => Ok(ctx),
                Err(er) => Err(er),
            },
            Ok(t) => Err(
                TypeErrorV::Mismatch {
                    node: ErrorNodeV::Condition,
                    expected: TypeV::Bool,
                    found: t,
                },
            ),
            Err(er) => Err(er),
        },
        StmtV::StructDef(d) => {
            let entry = StructEntryV {
                name: d.name,
                fields: Seq::new(d.fields.len(), |i: int| (d.fields[i].name, d.fields[i].var_type)),
            };
            Ok(CtxV { vars: ctx.vars, structs: ctx.structs.push(entry), funcs: ctx.funcs })
        },
    }
}

/// Checks a block of statements in order, threading the context.
pub open spec fn spec_block_check(ctx: CtxV, ss: Seq<StmtV>, ret: Option<TypeV>) -> Result<
    CtxV,
    TypeErrorV,
>
    decreases ss,
{
    if ss.len() == 0 {
        Ok(ctx)
    } else {
        match spec_stmt_check(ctx, ss[0], ret) {
            Ok(c2) => spec_block_check(c2, ss.subrange(1, ss.len() as int), ret),
            Err(er) => Err(er),
        }
    }
}

/// Checks the top-level program chain in order.  A bare expression node may
/// have any type; statement nodes extend the context for what follows.
pub open spec fn spec_items_check_program(ctx: CtxV, items: Seq<ItemV>) -> Result<
    CtxV,
    TypeErrorV,
>
    decreases items,
{
    if items.len() == 0 {
        Ok(ctx)
    } else {
        let step = match items[0] {
            ItemV::Stmt(s) => spec_stmt_check(ctx, s, None),
            ItemV::Exp(e) => match spec_exp_type(ctx, e) {
                Ok(_) => Ok(ctx),
                Err(er) => Err(er),
            },
        };
        match step {
            Ok(c2) => spec_items_check_program(c2, items.subrange(1, items.len() as int)),
            Err(er) => Err(er),
        }
    }
}

/// The empty context: no bindings, no structs, no functions.
pub open spec fn empty_ctx() -> CtxV {
    CtxV { vars: seq![], structs: seq![], funcs: seq![] }
}

/// The verdict of the type checker on a whole program.
pub open spec fn spec_type_check(items: Seq<ItemV>) -> Result<(), TypeErrorV> {
    match spec_items_check_program(empty_ctx(), items) {
        Ok(_) => Ok(()),
        Err(er) => Err(er),
    }
}

/// Law: validation is idempotent.  `type_check` hands a validated tree back
/// unchanged, so running the checker on its own output examines the very
/// same tree and must reach the very same verdict; no second pass can alter
/// an already-validated program.
pub proof fn lemma_type_check_idempotent(a: AST, b: AST)
    requires
        spec_type_check(ast_view(a)) == Ok::<(), TypeErrorV>(()),
        ast_view(b) == ast_view(a),
    ensures
        spec_type_check(ast_view(b)) == Ok::<(), TypeErrorV>(()),
{
}

// ---------------------------------------------------------------------------
// Scope bookkeeping
// ---------------------------------------------------------------------------

/// `c2` carries everything `c1` does, in place, with possibly more appended.
pub open spec fn ctx_extends(c2: CtxV, c1: CtxV) -> bool {
    &&& c2.vars.len() >= c1.vars.len()
    &&& c2.vars.subrange(0, c1.vars.len() as int) == c1.vars
    &&& c2.structs.len() >= c1.structs.len()
    &&& c2.structs.subrange(0, c1.structs.len() as int) == c1.structs
    &&& c2.funcs.len() >= c1.funcs.len()
    &&& c2.funcs.subrange(0, c1.funcs.len() as int) == c1.funcs
}

proof fn lemma_ctx_extends_refl(c: CtxV)
    ensures
        ctx_extends(c, c),
{
    assert(c.vars.subrange(0, c.vars.len() as int) =~= c.vars);
    assert(c.structs.subrange(0, c.structs.len() as int) =~= c.structs);
    assert(c.funcs.subrange(0, c.funcs.len() as int) =~= c.funcs);
}

proof fn lemma_ctx_extends_trans(c3: CtxV, c2: CtxV, c1: CtxV)
    requires
        ctx_extends(c3, c2),
        ctx_extends(c2, c1),
    ensures
        ctx_extends(c3, c1),
{
    assert(c3.vars.subrange(0, c1.vars.len() as int) =~= c2.vars.subrange(
        0,
        c1.vars.len() as int,
    ));
    assert(c3.structs.subrange(0, c1.structs.len() as int) =~= c2.structs.subrange(
        0,
        c1.structs.len() as int,
    ));
    assert(c3.funcs.subrange(0, c1.funcs.len() as int) =~= c2.funcs.subrange(
        0,
        c1.funcs.len() as int,
    ));
}

/// A statement extends the context it was checked in: nothing in scope is
/// dropped or reordered.
proof fn lemma_stmt_check_extends(ctx: CtxV, s: StmtV, ret: Option<TypeV>)
    ensures
        match spec_stmt_check(ctx, s, ret) {
            Ok(c2) => ctx_extends(c2, ctx),
            Err(_) => true,
        },
{
    lemma_ctx_extends_refl(ctx);
    match spec_stmt_check(ctx, s, ret) {
        Ok(c2) => {
            assert(c2.vars.subrange(0, ctx.vars.len() as int) =~= ctx.vars);
            assert(c2.structs.subrange(0, ctx.structs.len() as int) =~= ctx.structs);
            assert(c2.funcs.subrange(0, ctx.funcs.len() as int) =~= ctx.funcs);
        },
        Err(_) => {},
    }
}

proof fn lemma_block_check_extends(ctx: CtxV, ss: Seq<StmtV>, ret: Option<TypeV>)
    ensures
        match spec_block_check(ctx, ss, ret) {
            Ok(c2) => ctx_extends(c2, ctx),
            Err(_) => true,
        },
    decreases ss,
{
    lemma_ctx_extends_refl(ctx);
    if ss.len() > 0 {
        match spec_stmt_check(ctx, ss[0], ret) {
            Ok(c2) => {
                lemma_stmt_check_extends(ctx, ss[0], ret);
                lemma_block_check_extends(c2, ss.subrange(1, ss.len() as int), ret);
                match spec_block_check(c2, ss.subrange(1, ss.len() as int), ret) {
                    Ok(c3) => {
                        lemma_ctx_extends_trans(c3, c2, ctx);
                    },
                    Err(_) => {},
                }
            },
            Err(_) => {},
        }
    }
}

// ---------------------------------------------------------------------------
// Executable lookups and small helpers
// ---------------------------------------------------------------------------

/// Model of an optional expected return type handed through the checker.
pub open spec fn ret_view(ret: Option<&Type>) -> Option<TypeV> {
    match ret {
        Some(t) => Some(t@),
        None => None,
    }
}

fn lookup_var_exec(vars: &Vec<(String, Type)>, name: &String) -> (r: Option<Type>)
    ensures
        match r {
            Some(t) => lookup_var(pairs_view(vars@), name@) == Some(t@),
            None => lookup_var(pairs_view(vars@), name@) is None,
        },
{
    let mut i: usize = vars.len();
    proof {
        assert(pairs_view(vars@).subrange(0, vars@.len() as int) =~= pairs_view(vars@));
    }
    while i > 0
        invariant
            i <= vars.len(),
            lookup_var(pairs_view(vars@), name@) == lookup_var(
                pairs_view(vars@).subrange(0, i as int),
                name@,
            ),
        decreases i,
    {
        if vars[i - 1].0.eq(name) {
            proof {
                assert(pairs_view(vars@).subrange(0, i as int).last() == (
                    vars@[i - 1].0@,
                    vars@[i - 1].1@,
                ));
            }
            return Some(vars[i - 1].1.clone());
        }
        proof {
            assert(pairs_view(vars@).subrange(0, i as int).drop_last() =~= pairs_view(
                vars@,
            ).subrange(0, i as int - 1));
        }
        i = i - 1;
    }
    proof {
        assert(pairs_view(vars@).subrange(0, 0) =~= Seq::<(Seq<char>, TypeV)>::empty());
    }
    None
}

fn clone_pairs(v: &Vec<(String, Type)>) -> (r: Vec<(String, Type)>)
    ensures
        pairs_view(r@) == pairs_view(v@),
{
    let mut r: Vec<(String, Type)> = Vec::new();
    let mut k: usize = 0;
    while k < v.len()
        invariant
            k <= v.len(),
            r@.len() == k,
            forall|i: int| 0 <= i < k ==> r@[i].0@ == v@[i].0@ && r@[i].1@ == v@[i].1@,
        decreases v.len() - k,
    {
        r.push((v[k].0.clone(), v[k].1.clone()));
        k = k + 1;
    }
    proof {
        assert(pairs_view(r@) =~= pairs_view(v@));
    }
    r
}

fn clone_types(v: &Vec<Type>) -> (r: Vec<Type>)
    ensures
        r.deep_view() == v.deep_view(),
{
    let mut r: Vec<Type> = Vec::new();
    let mut k: usize = 0;
    while k < v.len()
        invariant
            k <= v.len(),
            r@.len() == k,
            forall|i: int| 0 <= i < k ==> r@[i]@ == v@[i]@,
        decreases v.len() - k,
    {
        r.push(v[k].clone());
        k = k + 1;
    }
    proof {
        assert(r.deep_view() =~= v.deep_view());
    }
    r
}

fn lookup_struct_exec(structs: &Vec<StructEntry>, name: &String) -> (r: Option<StructEntry>)
    ensures
        match r {
            Some(entry) => lookup_struct(structs_view(structs@), name@) == Some(entry@),
            None => lookup_struct(structs_view(structs@), name@) is None,
        },
{
    let mut i: usize = structs.len();
    proof {
        assert(structs_view(structs@).subrange(0, structs@.len() as int) =~= structs_view(
            structs@,
        ));
    }
    while i > 0
        invariant
            i <= structs.len(),
            lookup_struct(structs_view(structs@), name@) == lookup_struct(
                structs_view(structs@).subrange(0, i as int),
                name@,
            ),
        decreases i,
    {
        if structs[i - 1].name.eq(name) {
            proof {
                assert(structs_view(structs@).subrange(0, i as int).last() == structs@[i - 1]@);
            }
            let entry = StructEntry {
                name: structs[i - 1].name.clone(),
                fields: clone_pairs(&structs[i - 1].fields),
            };
            return Some(entry);
        }
        proof {
            assert(structs_view(structs@).subrange(0, i as int).drop_last() =~= structs_view(
                structs@,
            ).subrange(0, i as int - 1));
        }
        i = i - 1;
    }
    proof {
        assert(structs_view(structs@).subrange(0, 0) =~= Seq::<StructEntryV>::empty());
    }
    None
}

fn lookup_func_exec(funcs: &Vec<FuncSig>, name: &String) -> (r: Option<FuncSig>)
    ensures
        match r {
            Some(sig) => lookup_func(funcs_view(funcs@), name@) == Some(sig@),
            None => lookup_func(funcs_view(funcs@), name@) is None,
        },
{
    let mut i: usize = funcs.len();
    proof {
        assert(funcs_view(funcs@).subrange(0, funcs@.len() as int) =~= funcs_view(funcs@));
    }
    while i > 0
        invariant
            i <= funcs.len(),
            lookup_func(funcs_view(funcs@), name@) == lookup_func(
                funcs_view(funcs@).subrange(0, i as int),
                name@,
            ),
        decreases i,
    {
        if funcs[i - 1].name.eq(name) {
            proof {
                assert(funcs_view(funcs@).subrange(0, i as int).last() == funcs@[i - 1]@);
            }
            let sig = FuncSig {
                name: funcs[i - 1].name.clone(),
                params: clone_types(&funcs[i - 1].params),
                output: funcs[i - 1].output.clone(),
            };
            return Some(sig);
        }
        proof {
            assert(funcs_view(funcs@).subrange(0, i as int).drop_last() =~= funcs_view(
                funcs@,
            ).subrange(0, i as int - 1));
        }
        i = i - 1;
    }
    proof {
        assert(funcs_view(funcs@).subrange(0, 0) =~= Seq::<FuncSigV>::empty());
    }
    None
}

/// The list type whose elements have type `elem`, if that kind exists.
pub fn list_type(elem: &Type) -> (r: Option<Type>)
    ensures
        match r {
            Some(t) => list_type_of(elem@) == Some(t@),
            None => list_type_of(elem@) is None,
        },
{
    match elem {
        Type::Int => Some(Type::ListInt),
        Type::Str => Some(Type::ListStr),
        Type::Bool => Some(Type::ListBool),
        Type::Struct(n) => Some(Type::ListStruct(n.clone())),
        _ => None,
    }
}

/// The element type of a list type, if `t` is one.
pub fn elem_type(t: &Type) -> (r: Option<Type>)
    ensures
        match r {
            Some(et) => elem_type_of(t@) == Some(et@),
            None => elem_type_of(t@) is None,
        },
{
    match t {
        Type::ListInt => Some(Type::Int),
        Type::ListStr => Some(Type::Str),
        Type::ListBool => Some(Type::Bool),
        Type::ListStruct(n) => Some(Type::Struct(n.clone())),
        _ => None,
    }
}

// ---------------------------------------------------------------------------
// Executable expression checking
// ---------------------------------------------------------------------------

/// Drops bindings back to `saved`, leaving the tables alone.
fn restore_vars(ctx: &mut TypeContext, saved: usize)
    requires
        saved <= old(ctx).vars.len(),
    ensures
        final(ctx)@.vars == old(ctx)@.vars.subrange(0, saved as int),
        final(ctx)@.structs == old(ctx)@.structs,
        final(ctx)@.funcs == old(ctx)@.funcs,
{
    let ghost before = ctx@;
    ctx.vars.truncate(saved);
    proof {
        assert(pairs_view(ctx.vars@) =~= before.vars.subrange(0, saved as int));
    }
}

/// The type of `e` under `ctx`, or the first type error found.  The context
/// is left exactly as it was.
#[verifier::rlimit(50)]
pub fn exp_type(ctx: &mut TypeContext, e: &Exp) -> (r: Result<Type, TypeError>)
    ensures
        final(ctx)@ == old(ctx)@,
        match r {
            Ok(t) => spec_exp_type(old(ctx)@, exp_view(*e)) == Ok::<TypeV, TypeErrorV>(t@),
            Err(er) => spec_exp_type(old(ctx)@, exp_view(*e)) == Err::<TypeV, TypeErrorV>(er@),
        },
    decreases e,
{
    match e {
        Exp::Var(name) => match lookup_var_exec(&ctx.vars, name) {
            Some(t) => Ok(t),
            None => Err(TypeError::UndeclaredVariable(name.clone())),
        },
        Exp::Int(_) => Ok(Type::Int),
        Exp::Str(_) => Ok(Type::Str),
        Exp::Bool(_) => Ok(Type::Bool),
        Exp::Call(name, args) => {
            proof {
                lemma_exp_view_seq(args@);
            }
            match lookup_func_exec(&ctx.funcs, name) {
                Some(sig) => if args.len() != sig.params.len() {
                    Err(TypeError::ArityMismatch(name.clone()))
                } else {
                    match check_args(ctx, args, &sig.params, name) {
                        Ok(_) => Ok(sig.output),
                        Err(er) => Err(er),
                    }
                },
                None => Err(TypeError::UndefinedFunction(name.clone())),
            }
        },
        Exp::Negate(inner) => match exp_type(ctx, inner) {
            Ok(t) => match t {
                Type::Int => Ok(Type::Int),
                _ => Err(
                    TypeError::Mismatch {
                        node: ErrorNode::NegateOperand,
                        expected: Type::Int,
                        found: t,
                    },
                ),
            },
            Err(er) => Err(er),
        },
        Exp::Not(inner) => match exp_type(ctx, inner) {
            Ok(t) => match t {
                Type::Bool => Ok(Type::Bool),
                _ => Err(
                    TypeError::Mismatch {
                        node: ErrorNode::NotOperand,
                        expected: Type::Bool,
                        found: t,
                    },
                ),
            },
            Err(er) => Err(er),
        },
        Exp::Op(op, left, right) => {
            let lt = match exp_type(ctx, left) {
                Ok(t) => t,
                Err(er) => {
                    return Err(er);
                },
            };
            let rt = match exp_type(ctx, right) {
                Ok(t) => t,
                Err(er) => {
                    return Err(er);
                },
            };
            let arith = *op == crate::ast::Operation::Add || *op == crate::ast::Operation::Subtract
                || *op == crate::ast::Operation::Divide || *op == crate::ast::Operation::Multiply
                || *op == crate::ast::Operation::Modulo;
            let logic = *op == crate::ast::Operation::And || *op == crate::ast::Operation::Or;
            if arith {
                if !type_eq(&lt, &Type::Int) {
                    Err(
                        TypeError::Mismatch {
                            node: ErrorNode::LeftOperand(*op),
                            expected: Type::Int,
                            found: lt,
                        },
                    )
                } else if !type_eq(&rt, &Type::Int) {
                    Err(
                        TypeError::Mismatch {
                            node: ErrorNode::RightOperand(*op),
                            expected: Type::Int,
                            found: rt,
                        },
                    )
                } else {
                    Ok(Type::Int)
                }
            } else if logic {
                if !type_eq(&lt, &Type::Bool) {
                    Err(
                        TypeError::Mismatch {
                            node: ErrorNode::LeftOperand(*op),
                            expected: Type::Bool,
                            found: lt,
                        },
                    )
                } else if !type_eq(&rt, &Type::Bool) {
                    Err(
                        TypeError::Mismatch {
                            node: ErrorNode::RightOperand(*op),
                            expected: Type::Bool,
                            found: rt,
                        },
                    )
                } else {
                    Ok(Type::Bool)
                }
            } else {
                if !type_eq(&lt, &rt) {
                    Err(
                        TypeError::Mismatch {
                            node: ErrorNode::RightOperand(*op),
                            expected: lt,
                            found: rt,
                        },
                    )
                } else {
                    Ok(Type::Bool)
                }
            }
        },
        Exp::Struct(name, fields) => {
            proof {
                lemma_field_view_seq(fields@);
            }
            match lookup_struct_exec(&ctx.structs, name) {
                Some(decl) => check_fields(ctx, fields, &decl.fields, name),
                None => Err(TypeError::UndefinedStruct(name.clone())),
            }
        },
        Exp::List(elem, items) => {
            proof {
                lemma_exp_view_seq(items@);
            }
            match list_type(elem) {
                Some(lt) => match check_list_items(ctx, items, elem) {
                    Ok(_) => Ok(lt),
                    Err(er) => Err(er),
                },
                None => Err(TypeError::InvalidListElement(elem.clone())),
            }
        },
        Exp::HOF(param, body) => {
            let ghost before = ctx@;
            let saved = ctx.vars.len();
            ctx.vars.push((param.name.clone(), param.var_type.clone()));
            proof {
                assert(pairs_view(ctx.vars@) =~= before.vars.push((
                    param.name@,
                    param.var_type@,
                )));
                assert(ctx@ == CtxV {
                    vars: before.vars.push((param.name@, param.var_type@)),
                    structs: before.structs,
                    funcs: before.funcs,
                });
            }
            let r = exp_type(ctx, body);
            restore_vars(ctx, saved);
            proof {
                assert(before.vars.push((param.name@, param.var_type@)).subrange(
                    0,
                    saved as int,
                ) =~= before.vars);
                assert(ctx@ == before);
            }
            match r {
                Ok(bt) => {
                    let out = Type::HigherOrderFunction(
                        Box::new(param.var_type.clone()),
                        Box::new(bt),
                    );
                    proof {
                        let pv = var_view(**param);
                        let bv = exp_view(**body);
                        assert(exp_view(*e) == ExpV::HOF(Box::new(pv), Box::new(bv)));
                        let inner = CtxV {
                            vars: before.vars.push((pv.name, pv.var_type)),
                            structs: before.structs,
                            funcs: before.funcs,
                        };
                        assert(spec_exp_type(inner, bv) == Ok::<TypeV, TypeErrorV>(bt@));
                        assert(spec_exp_type(before, exp_view(*e)) == Ok::<TypeV, TypeErrorV>(
                            TypeV::HigherOrderFunction(Box::new(pv.var_type), Box::new(bt@)),
                        ));
                        assert(out@ == TypeV::HigherOrderFunction(
                            Box::new(pv.var_type),
                            Box::new(bt@),
                        ));
                    }
                    Ok(out)
                },
                Err(er) => Err(er),
            }
        },
    }
}

/// Checks call arguments left to right against the declared parameter types.
#[verifier::rlimit(50)]
#[verifier::loop_isolation(false)]
fn check_args(ctx: &mut TypeContext, args: &Vec<Exp>, params: &Vec<Type>, name: &String) -> (r:
    Result<(), TypeError>)
    requires
        args@.len() == params@.len(),
    ensures
        final(ctx)@ == old(ctx)@,
        match r {
            Ok(_) => spec_args_check(old(ctx)@, exp_view_seq(args@), params.deep_view(), name@, 0)
                == Ok::<(), TypeErrorV>(()),
            Err(er) => spec_args_check(
                old(ctx)@,
                exp_view_seq(args@),
                params.deep_view(),
                name@,
                0,
            ) == Err::<(), TypeErrorV>(er@),
        },
    decreases args@,
{
    let ghost c0 = ctx@;
    let ghost av = exp_view_seq(args@);
    let ghost pv = params.deep_view();
    proof {
        lemma_exp_view_seq(args@);
        assert(av.subrange(0, av.len() as int) =~= av);
        assert(pv.subrange(0, pv.len() as int) =~= pv);
    }
    let n = args.len();
    let mut k: usize = 0;
    while k < n
        invariant
            k <= n,
            n == args@.len(),
            n == params@.len(),
            ctx@ == c0,
            av == exp_view_seq(args@),
            pv == params.deep_view(),
            av.len() == n,
            pv.len() == n,
            forall|i: int| 0 <= i < n ==> av[i] == exp_view(args@[i]),
            spec_args_check(c0, av, pv, name@, 0) == spec_args_check(
                c0,
                av.subrange(k as int, n as int),
                pv.subrange(k as int, n as int),
                name@,
                k as int,
            ),
        decreases n - k,
    {
        let t = match exp_type(ctx, &args[k]) {
            Ok(t) => t,
            Err(er) => {
                return Err(er);
            },
        };
        if !type_eq(&t, &params[k]) {
            return Err(
                TypeError::Mismatch {
                    node: ErrorNode::Argument(name.clone(), k),
                    expected: params[k].clone(),
                    found: t,
                },
            );
        }
        proof {
            assert(av.subrange(k as int, n as int).subrange(1, (n - k) as int) =~= av.subrange(
                k as int + 1,
                n as int,
            ));
            assert(pv.subrange(k as int, n as int).subrange(1, (n - k) as int) =~= pv.subrange(
                k as int + 1,
                n as int,
            ));
        }
        k = k + 1;
    }
    proof {
        assert(av.subrange(n as int, n as int) =~= Seq::<ExpV>::empty());
    }
    Ok(())
}

/// Checks a struct literal's field bindings against the declaration.
#[verifier::rlimit(50)]
#[verifier::loop_isolation(false)]
fn check_fields(
    ctx: &mut TypeContext,
    fields: &Vec<(String, Exp)>,
    decl: &Vec<(String, Type)>,
    name: &String,
) -> (r: Result<Type, TypeError>)
    ensures
        final(ctx)@ == old(ctx)@,
        match r {
            Ok(t) => spec_fields_check(
                old(ctx)@,
                field_view_seq(fields@),
                pairs_view(decl@),
                name@,
            ) == Ok::<TypeV, TypeErrorV>(t@),
            Err(er) => spec_fields_check(
                old(ctx)@,
                field_view_seq(fields@),
                pairs_view(decl@),
                name@,
            ) == Err::<TypeV, TypeErrorV>(er@),
        },
    decreases fields@,
{
    let ghost c0 = ctx@;
    let ghost fv = field_view_seq(fields@);
    let ghost dv = pairs_view(decl@);
    proof {
        lemma_field_view_seq(fields@);
        assert(fv.subrange(0, fv.len() as int) =~= fv);
        assert(dv.subrange(0, dv.len() as int) =~= dv);
    }
    if fields.len() != decl.len() {
        return Err(TypeError::FieldMismatch(name.clone()));
    }
    let n = fields.len();
    let mut k: usize = 0;
    while k < n
        invariant
            k <= n,
            n == fields@.len(),
            n == decl@.len(),
            ctx@ == c0,
            fv == field_view_seq(fields@),
            dv == pairs_view(decl@),
            fv.len() == n,
            dv.len() == n,
            forall|i: int| 0 <= i < n ==> fv[i] == (fields@[i].0@, exp_view(fields@[i].1)),
            spec_fields_check(c0, fv, dv, name@) == spec_fields_check(
                c0,
                fv.subrange(k as int, n as int),
                dv.subrange(k as int, n as int),
                name@,
            ),
        decreases n - k,
    {
        if !fields[k].0.eq(&decl[k].0) {
            return Err(TypeError::FieldMismatch(name.clone()));
        }
        let t = match exp_type(ctx, &fields[k].1) {
            Ok(t) => t,
            Err(er) => {
                return Err(er);
            },
        };
        if !type_eq(&t, &decl[k].1) {
            return Err(
                TypeError::Mismatch {
                    node: ErrorNode::Field(name.clone(), decl[k].0.clone()),
                    expected: decl[k].1.clone(),
                    found: t,
                },
            );
        }
        proof {
            assert(fv.subrange(k as int, n as int).subrange(1, (n - k) as int) =~= fv.subrange(
                k as int + 1,
                n as int,
            ));
            assert(dv.subrange(k as int, n as int).subrange(1, (n - k) as int) =~= dv.subrange(
                k as int + 1,
                n as int,
            ));
        }
        k = k + 1;
    }
    proof {
        assert(fv.subrange(n as int, n as int) =~= Seq::<(Seq<char>, ExpV)>::empty());
    }
    Ok(Type::Struct(name.clone()))
}

/// Checks each list item against the declared element type.
#[verifier::rlimit(50)]
#[verifier::loop_isolation(false)]
fn check_list_items(ctx: &mut TypeContext, items: &Vec<Exp>, elem: &Type) -> (r: Result<
    (),
    TypeError,
>)
    ensures
        final(ctx)@ == old(ctx)@,
        match r {
            Ok(_) => spec_items_check(old(ctx)@, exp_view_seq(items@), elem@, 0) == Ok::<
                (),
                TypeErrorV,
            >(()),
            Err(er) => spec_items_check(old(ctx)@, exp_view_seq(items@), elem@, 0) == Err::<
                (),
                TypeErrorV,
            >(er@),
        },
    decreases items@,
{
    let ghost c0 = ctx@;
    let ghost iv = exp_view_seq(items@);
    proof {
        lemma_exp_view_seq(items@);
        assert(iv.subrange(0, iv.len() as int) =~= iv);
    }
    let n = items.len();
    let mut k: usize = 0;
    while k < n
        invariant
            k <= n,
            n == items@.len(),
            ctx@ == c0,
            iv == exp_view_seq(items@),
            iv.len() == n,
            forall|i: int| 0 <= i < n ==> iv[i] == exp_view(items@[i]),
            spec_items_check(c0, iv, elem@, 0) == spec_items_check(
                c0,
                iv.subrange(k as int, n as int),
                elem@,
                k as int,
            ),
        decreases n - k,
    {
        let t = match exp_type(ctx, &items[k]) {
            Ok(t) => t,
            Err(er) => {
                return Err(er);
            },
        };
        if !type_eq(&t, elem) {
            return Err(
                TypeError::Mismatch {
                    node: ErrorNode::ListItem(k),
                    expected: elem.clone(),
                    found: t,
                },
            );
        }
        proof {
            assert(iv.subrange(k as int, n as int).subrange(1, (n - k) as int) =~= iv.subrange(
                k as int + 1,
                n as int,
            ));
        }
        k = k + 1;
    }
    proof {
        assert(iv.subrange(n as int, n as int) =~= Seq::<ExpV>::empty());
    }
    Ok(())
}

// ---------------------------------------------------------------------------
// Executable statement checking
// ---------------------------------------------------------------------------

/// Drops everything declared after the three saved table sizes.
fn restore_scope(ctx: &mut TypeContext, saved_vars: usize, saved_structs: usize, saved_funcs: usize)
    requires
        saved_vars <= old(ctx).vars.len(),
        saved_structs <= old(ctx).structs.len(),
        saved_funcs <= old(ctx).funcs.len(),
    ensures
        final(ctx)@.vars == old(ctx)@.vars.subrange(0, saved_vars as int),
        final(ctx)@.structs == old(ctx)@.structs.subrange(0, saved_structs as int),
        final(ctx)@.funcs == old(ctx)@.funcs.subrange(0, saved_funcs as int),
{
    let ghost before = ctx@;
    ctx.vars.truncate(saved_vars);
    ctx.structs.truncate(saved_structs);
    ctx.funcs.truncate(saved_funcs);
    proof {
        assert(pairs_view(ctx.vars@) =~= before.vars.subrange(0, saved_vars as int));
        assert(structs_view(ctx.structs@) =~= before.structs.subrange(0, saved_structs as int));
        assert(funcs_view(ctx.funcs@) =~= before.funcs.subrange(0, saved_funcs as int));
    }
}

/// Checks one statement, extending the context with what it declares.  On an
/// error the context is left in an unspecified state; the caller stops.
#[verifier::rlimit(80)]
#[verifier::loop_isolation(false)]
fn check_stmt(ctx: &mut TypeContext, s: &Statement, ret: Option<&Type>) -> (r: Result<
    (),
    TypeError,
>)
    ensures
        match r {
            Ok(_) => spec_stmt_check(old(ctx)@, stmt_view(*s), ret_view(ret)) == Ok::<
                CtxV,
                TypeErrorV,
            >(final(ctx)@),
            Err(er) => spec_stmt_check(old(ctx)@, stmt_view(*s), ret_view(ret)) == Err::<
                CtxV,
                TypeErrorV,
            >(er@),
        },
    decreases s,
{
    let ghost c0 = ctx@;
    match s {
        Statement::Assignment(v, e) => {
            let t = match exp_type(ctx, e) {
                Ok(t) => t,
                Err(er) => {
                    return Err(er);
                },
            };
            if !type_eq(&t, &v.var_type) {
                return Err(
                    TypeError::Mismatch {
                        node: ErrorNode::Assignment(v.name.clone()),
                        expected: v.var_type.clone(),
                        found: t,
                    },
                );
            }
            ctx.vars.push((v.name.clone(), v.var_type.clone()));
            proof {
                assert(pairs_view(ctx.vars@) =~= c0.vars.push((v.name@, v.var_type@)));
            }
            Ok(())
        },
        Statement::Function(f) => {
            proof {
                lemma_var_view_seq(f.param@);
                lemma_stmt_view_seq(f.block@);
            }
            let ghost fv = stmt_view(*s)->Function_0;
            // record the signature, then check the body with the parameters
            // and the signature itself in scope
            let saved_vars = ctx.vars.len();
            let saved_structs = ctx.structs.len();
            let saved_funcs = ctx.funcs.len();
            let mut params: Vec<Type> = Vec::new();
            let mut k: usize = 0;
            while k < f.param.len()
                invariant
                    k <= f.param@.len(),
                    params@.len() == k,
                    forall|i: int| 0 <= i < k ==> params@[i]@ == f.param@[i].var_type@,
                decreases f.param@.len() - k,
            {
                params.push(f.param[k].var_type.clone());
                k = k + 1;
            }
            let sig = FuncSig {
                name: f.name.clone(),
                params,
                output: f.output.var_type.clone(),
            };
            proof {
                assert(sig@.params =~= Seq::new(fv.param.len(), |i: int| fv.param[i].var_type));
                assert(sig@ == FuncSigV {
                    name: fv.name,
                    params: Seq::new(fv.param.len(), |i: int| fv.param[i].var_type),
                    output: fv.output.var_type,
                });
            }
            let ghost sigv = sig@;
            ctx.funcs.push(sig);
            let funcs_mark = ctx.funcs.len();
            proof {
                assert(funcs_view(ctx.funcs@) =~= c0.funcs.push(sigv));
            }
            let mut k2: usize = 0;
            while k2 < f.param.len()
                invariant
                    k2 <= f.param@.len(),
                    funcs_mark == ctx.funcs.len(),
                    ctx@.structs == c0.structs,
                    ctx@.funcs == c0.funcs.push(sigv),
                    ctx@.vars == c0.vars + Seq::new(
                        k2 as nat,
                        |i: int| (fv.param[i].name, fv.param[i].var_type),
                    ),
                decreases f.param@.len() - k2,
            {
                let ghost vbefore = ctx@.vars;
                ctx.vars.push((f.param[k2].name.clone(), f.param[k2].var_type.clone()));
                proof {
                    assert(pairs_view(ctx.vars@) =~= vbefore.push((
                        f.param@[k2 as int].name@,
                        f.param@[k2 as int].var_type@,
                    )));
                    assert(pairs_view(ctx.vars@) =~= c0.vars + Seq::new(
                        (k2 + 1) as nat,
                        |i: int| (fv.param[i].name, fv.param[i].var_type),
                    ));
                }
                k2 = k2 + 1;
            }
            proof {
                assert(ctx@ == CtxV {
                    vars: c0.vars + Seq::new(
                        fv.param.len(),
                        |i: int| (fv.param[i].name, fv.param[i].var_type),
                    ),
                    structs: c0.structs,
                    funcs: c0.funcs.push(sigv),
                });
            }
            let ghost inner = ctx@;
            let r = check_block(ctx, &f.block, Some(&f.output.var_type));
            match r {
                Ok(_) => {
                    proof {
                        lemma_block_check_extends(inner, fv.block, Some(fv.output.var_type));
                    }
                    restore_scope(ctx, saved_vars, saved_structs, funcs_mark);
                    proof {
                        assert(ctx@.vars =~= c0.vars);
                        assert(ctx@.structs =~= c0.structs);
                        assert(ctx@.funcs =~= c0.funcs.push(sigv));
                        assert(ctx@ == CtxV {
                            vars: c0.vars,
                            structs: c0.structs,
                            funcs: c0.funcs.push(sigv),
                        });
                    }
                    Ok(())
                },
                Err(er) => Err(er),
            }
        },
        Statement::Return(e) => {
            let t = match exp_type(ctx, e) {
                Ok(t) => t,
                Err(er) => {
                    return Err(er);
                },
            };
            match ret {
                Some(o) => if type_eq(&t, o) {
                    Ok(())
                } else {
                    Err(
                        TypeError::Mismatch {
                            node: ErrorNode::ReturnValue,
                            expected: o.clone(),
                            found: t,
                        },
                    )
                },
                None => Ok(()),
            }
        },
        Statement::If(i) => {
            proof {
                lemma_stmt_view_seq(i.true_branch@);
            }
            let t = match exp_type(ctx, &i.condition) {
                Ok(t) => t,
                Err(er) => {
                    return Err(er);
                },
            };
            match t {
                Type::Bool => {},
                _ => {
                    return Err(
                        TypeError::Mismatch {
                            node: ErrorNode::Condition,
                            expected: Type::Bool,
                            found: t,
                        },
                    );
                },
            }
            let saved_vars = ctx.vars.len();
            let saved_structs = ctx.structs.len();
            let saved_funcs = ctx.funcs.len();
            match check_block(ctx, &i.true_branch, ret) {
                Ok(_) => {
                    proof {
                        lemma_block_check_extends(
                            c0,
                            stmt_view(*s)->If_0.true_branch,
                            ret_view(ret),
                        );
                    }
                    restore_scope(ctx, saved_vars, saved_structs, saved_funcs);
                    proof {
                        assert(ctx@.vars =~= c0.vars);
                        assert(ctx@.structs =~= c0.structs);
                        assert(ctx@.funcs =~= c0.funcs);
                        assert(ctx@ == c0);
                    }
                },
                Err(er) => {
                    return Err(er);
                },
            }
            match &i.false_branch {
                Some(fb) => {
                    proof {
                        lemma_stmt_view_seq(fb@);
                    }
                    match check_block(ctx, fb, ret) {
                        Ok(_) => {
                            proof {
                                lemma_block_check_extends(
                                    c0,
                                    stmt_view(*s)->If_0.false_branch->0,
                                    ret_view(ret),
                                );
                            }
                            restore_scope(ctx, saved_vars, saved_structs, saved_funcs);
                            proof {
                                assert(ctx@.vars =~= c0.vars);
                                assert(ctx@.structs =~= c0.structs);
                                assert(ctx@.funcs =~= c0.funcs);
                                assert(ctx@ == c0);
                            }
                            Ok(())
                        },
                        Err(er) => Err(er),
                    }
                },
                None => Ok(()),
            }
        },
        Statement::For(f) => {
            proof {
                lemma_stmt_view_seq(f.block@);
            }
            let lt = match exp_type(ctx, &f.list) {
                Ok(t) => t,
                Err(er) => {
                    return Err(er);
                },
            };
            let et = match elem_type(&lt) {
                Some(et) => et,
                None => {
                    return Err(TypeError::NotAList(lt));
                },
            };
            let saved_vars = ctx.vars.len();
            let saved_structs = ctx.structs.len();
            let saved_funcs = ctx.funcs.len();
            ctx.vars.push((f.iter.name.clone(), et));
            proof {
                assert(pairs_view(ctx.vars@) =~= c0.vars.push((
                    f.iter.name@,
                    elem_type_of(lt@)->0,
                )));
                assert(ctx@ == CtxV {
                    vars: c0.vars.push((stmt_view(*s)->For_0.iter.name, elem_type_of(lt@)->0)),
                    structs: c0.structs,
                    funcs: c0.funcs,
                });
            }
            let ghost inner = ctx@;
            match check_block(ctx, &f.block, ret) {
                Ok(_) => {
                    proof {
                        lemma_block_check_extends(inner, stmt_view(*s)->For_0.block, ret_view(ret));
                    }
                    restore_scope(ctx, saved_vars, saved_structs, saved_funcs);
                    proof {
                        assert(ctx@.vars =~= c0.vars);
                        assert(ctx@.structs =~= c0.structs);
                        assert(ctx@.funcs =~= c0.funcs);
                        assert(ctx@ == c0);
                    }
                    Ok(())
                },
                Err(er) => Err(er),
            }
        },
        Statement::While(w) => {
            proof {
                lemma_stmt_view_seq(w.block@);
            }
            let t = match exp_type(ctx, &w.condition) {
                Ok(t) => t,
                Err(er) => {
                    return Err(er);
                },
            };
            match t {
                Type::Bool => {},
                _ => {
                    return Err(
                        TypeError::Mismatch {
                            node: ErrorNode::Condition,
                            expected: Type::Bool,
                            found: t,
                        },
                    );
                },
            }
            let saved_vars = ctx.vars.len();
            let saved_structs = ctx.structs.len();
            let saved_funcs = ctx.funcs.len();
            match check_block(ctx, &w.block, ret) {
                Ok(_) => {
                    proof {
                        lemma_block_check_extends(c0, stmt_view(*s)->While_0.block, ret_view(ret));
                    }
                    restore_scope(ctx, saved_vars, saved_structs, saved_funcs);
                    proof {
                        assert(ctx@.vars =~= c0.vars);
                        assert(ctx@.structs =~= c0.structs);
                        assert(ctx@.funcs =~= c0.funcs);
                        assert(ctx@ == c0);
                    }
                    Ok(())
                },
                Err(er) => Err(er),
            }
        },
        Statement::StructDef(d) => {
            proof {
                lemma_var_view_seq(d.fields@);
            }
            let mut fields: Vec<(String, Type)> = Vec::new();
            let mut k: usize = 0;
            while k < d.fields.len()
                invariant
                    k <= d.fields@.len(),
                    fields@.len() == k,
                    forall|i: int|
                        0 <= i < k ==> fields@[i].0@ == d.fields@[i].name@ && fields@[i].1@
                            == d.fields@[i].var_type@,
                decreases d.fields@.len() - k,
            {
                fields.push((d.fields[k].name.clone(), d.fields[k].var_type.clone()));
                k = k + 1;
            }
            let entry = StructEntry { name: d.name.clone(), fields };
            proof {
                let dv = stmt_view(*s)->StructDef_0;
                assert(entry@.fields =~= Seq::new(
                    dv.fields.len(),
                    |i: int| (dv.fields[i].name, dv.fields[i].var_type),
                ));
                assert(entry@ == StructEntryV {
                    name: dv.name,
                    fields: Seq::new(
                        dv.fields.len(),
                        |i: int| (dv.fields[i].name, dv.fields[i].var_type),
                    ),
                });
            }
            ctx.structs.push(entry);
            proof {
                assert(structs_view(ctx.structs@) =~= c0.structs.push(StructEntryV {
                    name: stmt_view(*s)->StructDef_0.name,
                    fields: Seq::new(
                        stmt_view(*s)->StructDef_0.fields.len(),
                        |i: int| (
                            stmt_view(*s)->StructDef_0.fields[i].name,
                            stmt_view(*s)->StructDef_0.fields[i].var_type,
                        ),
                    ),
                }));
            }
            Ok(())
        },
    }
}

/// Checks a block of statements in order.
#[verifier::rlimit(50)]
#[verifier::loop_isolation(false)]
fn check_block(ctx: &mut TypeContext, ss: &Vec<Statement>, ret: Option<&Type>) -> (r: Result<
    (),
    TypeError,
>)
    ensures
        match r {
            Ok(_) => spec_block_check(old(ctx)@, stmt_view_seq(ss@), ret_view(ret)) == Ok::<
                CtxV,
                TypeErrorV,
            >(final(ctx)@),
            Err(er) => spec_block_check(old(ctx)@, stmt_view_seq(ss@), ret_view(ret)) == Err::<
                CtxV,
                TypeErrorV,
            >(er@),
        },
    decreases ss@,
{
    let ghost c0 = ctx@;
    let ghost sv = stmt_view_seq(ss@);
    proof {
        lemma_stmt_view_seq(ss@);
        assert(sv.subrange(0, sv.len() as int) =~= sv);
    }
    let n = ss.len();
    let mut k: usize = 0;
    while k < n
        invariant
            k <= n,
            n == ss@.len(),
            sv == stmt_view_seq(ss@),
            sv.len() == n,
            forall|i: int| 0 <= i < n ==> sv[i] == stmt_view(ss@[i]),
            spec_block_check(c0, sv, ret_view(ret)) == spec_block_check(
                ctx@,
                sv.subrange(k as int, n as int),
                ret_view(ret),
            ),
        decreases n - k,
    {
        match check_stmt(ctx, &ss[k], ret) {
            Ok(_) => {},
            Err(er) => {
                return Err(er);
            },
        }
        proof {
            assert(sv.subrange(k as int, n as int).subrange(1, (n - k) as int) =~= sv.subrange(
                k as int + 1,
                n as int,
            ));
        }
        k = k + 1;
    }
    proof {
        assert(sv.subrange(n as int, n as int) =~= Seq::<StmtV>::empty());
    }
    Ok(())
}

/// Checks the chain of top-level nodes in order.
fn check_chain(ctx: &mut TypeContext, a: &AST) -> (r: Result<(), TypeError>)
    ensures
        match r {
            Ok(_) => spec_items_check_program(old(ctx)@, ast_view(*a)) == Ok::<CtxV, TypeErrorV>(
                final(ctx)@,
            ),
            Err(er) => spec_items_check_program(old(ctx)@, ast_view(*a)) == Err::<
                CtxV,
                TypeErrorV,
            >(er@),
        },
    decreases a,
{
    let ghost c0 = ctx@;
    match a {
        AST::Leaf => Ok(()),
        AST::StmtNode(s, rest) => {
            proof {
                assert(ast_view(*a) == seq![ItemV::Stmt(stmt_view(*s))] + ast_view(**rest));
                assert(ast_view(*a).subrange(1, ast_view(*a).len() as int) =~= ast_view(**rest));
            }
            match check_stmt(ctx, s, None) {
                Ok(_) => check_chain(ctx, rest),
                Err(er) => Err(er),
            }
        },
        AST::ExpNode(e, rest) => {
            proof {
                assert(ast_view(*a) == seq![ItemV::Exp(exp_view(*e))] + ast_view(**rest));
                assert(ast_view(*a).subrange(1, ast_view(*a).len() as int) =~= ast_view(**rest));
            }
            match exp_type(ctx, e) {
                Ok(_) => check_chain(ctx, rest),
                Err(er) => Err(er),
            }
        },
    }
}

/// Validates a whole program: on success the abstract syntax tree is handed
/// back unchanged; on failure the first type error of a left-to-right,
/// outside-in walk is reported.
pub fn type_check(input: AST) -> (r: Result<AST, TypeError>)
    ensures
        match r {
            Ok(out) => out == input && spec_type_check(ast_view(input)) == Ok::<(), TypeErrorV>(
                (),
            ),
            Err(er) => spec_type_check(ast_view(input)) == Err::<(), TypeErrorV>(er@),
        },
{
    let mut ctx = TypeContext::new();
    match check_chain(&mut ctx, &input) {
        Ok(_) => Ok(input),
        Err(er) => Err(er),
    }
}

impl TypeContext {
    /// A context with nothing in scope.
    pub fn new() -> (r: TypeContext)
        ensures
            r@ == empty_ctx(),
    {
        let r = TypeContext { vars: Vec::new(), structs: Vec::new(), funcs: Vec::new() };
        proof {
            assert(r@.vars =~= empty_ctx().vars);
            assert(r@.structs =~= empty_ctx().structs);
            assert(r@.funcs =~= empty_ctx().funcs);
        }
        r
    }

    /// Binds `name` to `t`, shadowing any earlier binding of that name.
    pub fn declare_var(&mut self, name: String, t: Type) -> (nothing: ())
        ensures
            final(self)@.vars == old(self)@.vars.push((name@, t@)),
            final(self)@.structs == old(self)@.structs,
            final(self)@.funcs == old(self)@.funcs,
    {
        let ghost before = self@;
        self.vars.push((name, t));
        proof {
            assert(pairs_view(self.vars@) =~= before.vars.push((name@, t@)));
            assert(structs_view(self.structs@) =~= before.structs);
            assert(funcs_view(self.funcs@) =~= before.funcs);
        }
    }
}

} // verus!
