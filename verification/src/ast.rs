use vstd::prelude::*;
use crate::types::{Type, TypeV};

verus! {

// ---------------------------------------------------------------------------
// Expressions
// ---------------------------------------------------------------------------

/// The binary operators of the language.
#[derive(Debug, Clone, Copy, PartialEq, Eq, Structural)]
pub enum Operation {
    Add,
    Subtract,
    Divide,
    Multiply,
    Modulo,
    And,
    Or,
    GreaterThan,
    LessThan,
    GreaterEqual,
    LessEqual,
    Equal,
    NotEqual,
}

/// An expression: literals, variable references, unary and binary operations,
/// calls, and the structural literals (structs, lists, higher-order
/// functions).
#[derive(Debug, PartialEq, Eq)]
pub enum Exp {
    /// A variable reference by name.
    Var(String),
    Int(i32),
    Str(String),
    Bool(bool),
    /// A function call: callee name and arguments.
    Call(String, Vec<Exp>),
    /// Unary minus; its operand must be an integer.
    Negate(Box<Exp>),
    /// Unary `!`; its operand must be a boolean.
    Not(Box<Exp>),
    /// A binary operation.
    Op(Operation, Box<Exp>, Box<Exp>),
    /// A struct literal: struct name and ordered field bindings.
    Struct(String, Vec<(String, Exp)>),
    /// A list literal: declared element type and ordered items.
    List(Type, Vec<Exp>),
    /// A higher-order-function literal: one parameter binding and the body.
    HOF(Box<Var>, Box<Exp>),
}

/// A variable binding: a name, its declared type, and, for `let` bindings,
/// the initializing expression; function parameters carry no initializer.
#[derive(Debug, PartialEq, Eq)]
pub struct Var {
    pub name: String,
    pub var_type: Type,
    pub value: Option<Exp>,
}

// ---------------------------------------------------------------------------
// Statements
// ---------------------------------------------------------------------------

/// A statement of the language.
#[derive(Debug, PartialEq, Eq)]
pub enum Statement {
    /// `let v: t = e;`
    Assignment(Var, Exp),
    /// `func name(params) -> t { ... }`
    Function(Function),
    /// `return e;`
    Return(Exp),
    /// `if (e) { ... } [elif ...]* [else { ... }]`; an `elif` chain nests in
    /// the false branch.
    If(IfStatement),
    /// `for v in e { ... }`
    For(ForStatement),
    /// `while (e) { ... }`
    While(WhileStatement),
    /// `struct Name { field: t, ... }`
    StructDef(StructDef),
}

/// A function definition: name, parameters, declared output binding, body.
#[derive(Debug, PartialEq, Eq)]
pub struct Function {
    pub name: String,
    pub param: Vec<Var>,
    pub output: Var,
    pub block: Vec<Statement>,
}

#[derive(Debug, PartialEq, Eq)]
pub struct IfStatement {
    pub condition: Exp,
    pub true_branch: Vec<Statement>,
    pub false_branch: Option<Vec<Statement>>,
}

#[derive(Debug, PartialEq, Eq)]
pub struct ForStatement {
    pub iter: Var,
    pub list: Exp,
    pub block: Vec<Statement>,
}

#[derive(Debug, PartialEq, Eq)]
pub struct WhileStatement {
    pub condition: Exp,
    pub block: Vec<Statement>,
}

/// A struct definition: its name and its ordered, typed field list.
#[derive(Debug, PartialEq, Eq)]
pub struct StructDef {
    pub name: String,
    pub fields: Vec<Var>,
}

/// The abstract syntax tree of a program: a chain of statement or expression
/// nodes, terminated by `Leaf`.
#[derive(Debug, PartialEq, Eq)]
pub enum AST {
    StmtNode(Statement, Box<AST>),
    ExpNode(Exp, Box<AST>),
    Leaf,
}

// ---------------------------------------------------------------------------
// Mathematical models
// ---------------------------------------------------------------------------

pub ghost enum ExpV {
    Var(Seq<char>),
    Int(int),
    Str(Seq<char>),
    Bool(bool),
    Call(Seq<char>, Seq<ExpV>),
    Negate(Box<ExpV>),
    Not(Box<ExpV>),
    Op(Operation, Box<ExpV>, Box<ExpV>),
    Struct(Seq<char>, Seq<(Seq<char>, ExpV)>),
    List(TypeV, Seq<ExpV>),
    HOF(Box<VarV>, Box<ExpV>),
}

pub ghost struct VarV {
    pub name: Seq<char>,
    pub var_type: TypeV,
    pub value: Option<Box<ExpV>>,
}

pub ghost enum StmtV {
    Assignment(VarV, ExpV),
    Function(FunctionV),
    Return(ExpV),
    If(IfV),
    For(ForV),
    While(WhileV),
    StructDef(StructDefV),
}

pub ghost struct FunctionV {
    pub name: Seq<char>,
    pub param: Seq<VarV>,
    pub output: VarV,
    pub block: Seq<StmtV>,
}

pub ghost struct IfV {
    pub condition: ExpV,
    pub true_branch: Seq<StmtV>,
    pub false_branch: Option<Seq<StmtV>>,
}

pub ghost struct ForV {
    pub iter: VarV,
    pub list: ExpV,
    pub block: Seq<StmtV>,
}

pub ghost struct WhileV {
    pub condition: ExpV,
    pub block: Seq<StmtV>,
}

pub ghost struct StructDefV {
    pub name: Seq<char>,
    pub fields: Seq<VarV>,
}

/// One node of the program chain: a statement or a bare expression.
pub ghost enum ItemV {
    Stmt(StmtV),
    Exp(ExpV),
}

pub open spec fn exp_view(e: Exp) -> ExpV
    decreases e,
{
    match e {
        Exp::Var(name) => ExpV::Var(name@),
        Exp::Int(n) => ExpV::Int(n as int),
        Exp::Str(s) => ExpV::Str(s@),
        Exp::Bool(b) => ExpV::Bool(b),
        Exp::Call(name, args) => ExpV::Call(name@, exp_view_seq(args@)),
        Exp::Negate(inner) => ExpV::Negate(Box::new(exp_view(*inner))),
        Exp::Not(inner) => ExpV::Not(Box::new(exp_view(*inner))),
        Exp::Op(op, left, right) => ExpV::Op(
            op,
            Box::new(exp_view(*left)),
            Box::new(exp_view(*right)),
        ),
        Exp::Struct(name, fields) => ExpV::Struct(name@, field_view_seq(fields@)),
        Exp::List(t, items) => ExpV::List(t@, exp_view_seq(items@)),
        Exp::HOF(param, body) => ExpV::HOF(
            Box::new(var_view(*param)),
            Box::new(exp_view(*body)),
        ),
    }
}

pub open spec fn exp_view_seq(es: Seq<Exp>) -> Seq<ExpV>
    decreases es,
{
    if es.len() == 0 {
        seq![]
    } else {
        seq![exp_view(es[0])] + exp_view_seq(es.subrange(1, es.len() as int))
    }
}

pub open spec fn field_view_seq(fs: Seq<(String, Exp)>) -> Seq<(Seq<char>, ExpV)>
    decreases fs,
{
    if fs.len() == 0 {
        seq![]
    } else {
        seq![(fs[0].0@, exp_view(fs[0].1))] + field_view_seq(fs.subrange(1, fs.len() as int))
    }
}

pub open spec fn var_view(v: Var) -> VarV
    decreases v,
{
    VarV {
        name: v.name@,
        var_type: v.var_type@,
        value: match v.value {
            Some(e) => Some(Box::new(exp_view(e))),
            None => None,
        },
    }
}

pub open spec fn var_view_seq(vs: Seq<Var>) -> Seq<VarV>
    decreases vs,
{
    if vs.len() == 0 {
        seq![]
    } else {
        seq![var_view(vs[0])] + var_view_seq(vs.subrange(1, vs.len() as int))
    }
}

pub open spec fn stmt_view(s: Statement) -> StmtV
    decreases s,
{
    match s {
        Statement::Assignment(v, e) => StmtV::Assignment(var_view(v), exp_view(e)),
        Statement::Function(f) => StmtV::Function(
            FunctionV {
                name: f.name@,
                param: var_view_seq(f.param@),
                output: var_view(f.output),
                block: stmt_view_seq(f.block@),
            },
        ),
        Statement::Return(e) => StmtV::Return(exp_view(e)),
        Statement::If(i) => StmtV::If(
            IfV {
                condition: exp_view(i.condition),
                true_branch: stmt_view_seq(i.true_branch@),
                false_branch: match i.false_branch {
                    Some(fb) => Some(stmt_view_seq(fb@)),
                    None => None,
                },
            },
        ),
        Statement::For(f) => StmtV::For(
            ForV {
                iter: var_view(f.iter),
                list: exp_view(f.list),
                block: stmt_view_seq(f.block@),
            },
        ),
        Statement::While(w) => StmtV::While(
            WhileV { condition: exp_view(w.condition), block: stmt_view_seq(w.block@) },
        ),
        Statement::StructDef(d) => StmtV::StructDef(
            StructDefV { name: d.name@, fields: var_view_seq(d.fields@) },
        ),
    }
}

pub open spec fn stmt_view_seq(ss: Seq<Statement>) -> Seq<StmtV>
    decreases ss,
{
    if ss.len() == 0 {
        seq![]
    } else {
        seq![stmt_view(ss[0])] + stmt_view_seq(ss.subrange(1, ss.len() as int))
    }
}

pub proof fn lemma_exp_view_seq(es: Seq<Exp>)
    ensures
        exp_view_seq(es).len() == es.len(),
        forall|i: int| 0 <= i < es.len() ==> exp_view_seq(es)[i] == exp_view(es[i]),
    decreases es.len(),
{
    if es.len() > 0 {
        lemma_exp_view_seq(es.subrange(1, es.len() as int));
    }
}

pub proof fn lemma_var_view_seq(vs: Seq<Var>)
    ensures
        var_view_seq(vs).len() == vs.len(),
        forall|i: int| 0 <= i < vs.len() ==> var_view_seq(vs)[i] == var_view(vs[i]),
    decreases vs.len(),
{
    if vs.len() > 0 {
        lemma_var_view_seq(vs.subrange(1, vs.len() as int));
    }
}

pub proof fn lemma_field_view_seq(fs: Seq<(String, Exp)>)
    ensures
        field_view_seq(fs).len() == fs.len(),
        forall|i: int|
            0 <= i < fs.len() ==> field_view_seq(fs)[i] == (fs[i].0@, exp_view(fs[i].1)),
    decreases fs.len(),
{
    if fs.len() > 0 {
        lemma_field_view_seq(fs.subrange(1, fs.len() as int));
    }
}

pub proof fn lemma_stmt_view_seq(ss: Seq<Statement>)
    ensures
        stmt_view_seq(ss).len() == ss.len(),
        forall|i: int| 0 <= i < ss.len() ==> stmt_view_seq(ss)[i] == stmt_view(ss[i]),
    decreases ss.len(),
{
    if ss.len() > 0 {
        lemma_stmt_view_seq(ss.subrange(1, ss.len() as int));
    }
}

/// The model of a program chain: the ordered sequence of its nodes.
pub open spec fn ast_view(a: AST) -> Seq<ItemV>
    decreases a,
{
    match a {
        AST::Leaf => seq![],
        AST::StmtNode(s, rest) => seq![ItemV::Stmt(stmt_view(s))] + ast_view(*rest),
        AST::ExpNode(e, rest) => seq![ItemV::Exp(exp_view(e))] + ast_view(*rest),
    }
}

impl View for Exp {
    type V = ExpV;

    open spec fn view(&self) -> ExpV {
        exp_view(*self)
    }
}

impl DeepView for Exp {
    type V = ExpV;

    open spec fn deep_view(&self) -> ExpV {
        exp_view(*self)
    }
}

impl View for Var {
    type V = VarV;

    open spec fn view(&self) -> VarV {
        var_view(*self)
    }
}

impl DeepView for Var {
    type V = VarV;

    open spec fn deep_view(&self) -> VarV {
        var_view(*self)
    }
}

impl View for Statement {
    type V = StmtV;

    open spec fn view(&self) -> StmtV {
        stmt_view(*self)
    }
}

impl DeepView for Statement {
    type V = StmtV;

    open spec fn deep_view(&self) -> StmtV {
        stmt_view(*self)
    }
}

impl View for AST {
    type V = Seq<ItemV>;

    open spec fn view(&self) -> Seq<ItemV> {
        ast_view(*self)
    }
}

impl DeepView for AST {
    type V = Seq<ItemV>;

    open spec fn deep_view(&self) -> Seq<ItemV> {
        ast_view(*self)
    }
}

} // verus!
