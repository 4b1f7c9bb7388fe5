use vstd::prelude::*;
use crate::ast::{Exp, Operation, Statement, StructDef, Var, AST, Function, IfStatement,
    ForStatement, WhileStatement};
use crate::token::{Token, TokenV};
use crate::ast::{ast_view, exp_view, exp_view_seq, field_view_seq, lemma_exp_view_seq,
    lemma_field_view_seq, lemma_stmt_view_seq, lemma_var_view_seq, stmt_view, stmt_view_seq,
    var_view, var_view_seq, ExpV, ItemV, StmtV, VarV};
use crate::types::{Type, TypeV};
use crate::type_checker::{list_type_of, StructEntry};

verus! {

// ---------------------------------------------------------------------------
// Errors
// ---------------------------------------------------------------------------

/// What the parser was looking for when it stopped.
#[derive(Debug, Clone, Copy, PartialEq, Eq, Structural)]
pub enum Expected {
    /// An expression had to start here.
    Expression,
    /// A statement had to start here.
    Statement,
    /// A type had to stand here.
    TypeName,
    /// A name had to stand here.
    Identifier,
    /// A field binding `name: value` had to stand here.
    FieldName,
    /// A specific closing or separating token was missing.
    ClosingParen,
    ClosingBrace,
    ClosingCurly,
    OpeningParen,
    OpeningCurly,
    Colon,
    Semicolon,
    Assign,
    OutputArrow,
    InKeyword,
    ReturnKeyword,
    /// A call's argument count differed from the declared parameter count.
    ArgumentCount,
    /// The input ended although more was required.
    EndOfInput,
}

/// A failure of the parsing pass: the token position it stopped at, and what
/// was expected there.  The whole parse aborts with the first such error;
/// no partial tree is produced.
#[derive(Debug, PartialEq, Eq)]
pub struct SyntaxError {
    pub position: usize,
    pub expected: Expected,
}

/// The declarations the parser has walked past: struct definitions, used to
/// push expected field types into struct literals, and function signatures,
/// used to judge call arity and push expected types into arguments.
struct ParserTables {
    structs: Vec<StructEntry>,
    funcs: Vec<(String, Vec<Type>)>,
}

// ---------------------------------------------------------------------------
// The expression grammar, declaratively
// ---------------------------------------------------------------------------

/// The binary operators of each precedence level, lowest binding first.
pub open spec fn level_op(lv: int, t: TokenV) -> Option<crate::ast::Operation> {
    if lv == 0 {
        if t == TokenV::Or {
            Some(crate::ast::Operation::Or)
        } else {
            None
        }
    } else if lv == 1 {
        if t == TokenV::And {
            Some(crate::ast::Operation::And)
        } else {
            None
        }
    } else if lv == 2 {
        if t == TokenV::Equal {
            Some(crate::ast::Operation::Equal)
        } else if t == TokenV::NotEqual {
            Some(crate::ast::Operation::NotEqual)
        } else {
            None
        }
    } else if lv == 3 {
        if t == TokenV::LessThan {
            Some(crate::ast::Operation::LessThan)
        } else if t == TokenV::GreaterThan {
            Some(crate::ast::Operation::GreaterThan)
        } else if t == TokenV::LessEqual {
            Some(crate::ast::Operation::LessEqual)
        } else if t == TokenV::GreaterEqual {
            Some(crate::ast::Operation::GreaterEqual)
        } else {
            None
        }
    } else if lv == 4 {
        if t == TokenV::Plus {
            Some(crate::ast::Operation::Add)
        } else if t == TokenV::Minus {
            Some(crate::ast::Operation::Subtract)
        } else {
            None
        }
    } else if lv == 5 {
        if t == TokenV::Multiply {
            Some(crate::ast::Operation::Multiply)
        } else if t == TokenV::Divide {
            Some(crate::ast::Operation::Divide)
        } else if t == TokenV::Modulo {
            Some(crate::ast::Operation::Modulo)
        } else {
            None
        }
    } else {
        None
    }
}

/// A token that alone forms a complete expression.
pub open spec fn is_atom_token(t: TokenV) -> bool {
    t is Int || t is Str || t is Bool || t is Var
}

/// A token that stands as a binary operator of some level.
pub open spec fn is_binop_token(t: TokenV) -> bool {
    ||| t == TokenV::Or
    ||| t == TokenV::And
    ||| t == TokenV::Equal
    ||| t == TokenV::NotEqual
    ||| t == TokenV::LessThan
    ||| t == TokenV::GreaterThan
    ||| t == TokenV::LessEqual
    ||| t == TokenV::GreaterEqual
    ||| t == TokenV::Plus
    ||| t == TokenV::Minus
    ||| t == TokenV::Multiply
    ||| t == TokenV::Divide
    ||| t == TokenV::Modulo
}

/// The precedence level at which a binary operator is consumed.
pub open spec fn op_level(t: TokenV) -> int {
    if t == TokenV::Or {
        0
    } else if t == TokenV::And {
        1
    } else if t == TokenV::Equal || t == TokenV::NotEqual {
        2
    } else if t == TokenV::LessThan || t == TokenV::GreaterThan || t == TokenV::LessEqual || t
        == TokenV::GreaterEqual {
        3
    } else if t == TokenV::Plus || t == TokenV::Minus {
        4
    } else {
        5
    }
}

/// A flat operator expression covers `[i, j)`: single-token atoms under
/// optional prefix operators, joined by binary operators.  On such token
/// sequences the parser owes success.
pub open spec fn flat_exp(v: Seq<TokenV>, i: int, j: int) -> bool
    decreases j - i,
{
    i < j <= v.len() && if is_atom_token(v[i]) {
        i + 1 == j || (is_binop_token(v[i + 1]) && flat_exp(v, i + 2, j))
    } else if v[i] == TokenV::Minus || v[i] == TokenV::Not {
        flat_exp(v, i + 1, j)
    } else {
        false
    }
}

/// `e` is a parse of the tokens `[i, j)` at precedence level `lv` or
/// tighter.  At a binary level the expression is either a parse at the next
/// level, or an operation of this level whose left operand parses at this
/// level (operators of one level associate to the left) and whose right
/// operand parses at the next.  Level six holds the prefix operators, level
/// seven the primaries: literals, names, calls, parenthesized expressions
/// and the structural literals, whose comma-separated interiors partition
/// their spans element by element.  Only a higher-order-function literal's
/// parameter type is left open: it comes from the type-implying context,
/// not from the tokens.
pub open spec fn exp_rep(v: Seq<TokenV>, i: int, j: int, e: ExpV, lv: int) -> bool
    decreases j - i, 7 - lv,
{
    0 <= i < j <= v.len() && if lv < 6 {
        ||| exp_rep(v, i, j, e, lv + 1)
        ||| match e {
            ExpV::Op(op, l, r) => exists|k: int|
                #![trigger level_op(lv, v[k])]
                {
                    &&& i < k
                    &&& k + 1 < j
                    &&& level_op(lv, v[k]) == Some(op)
                    &&& exp_rep(v, i, k, *l, lv)
                    &&& exp_rep(v, k + 1, j, *r, lv + 1)
                },
            _ => false,
        }
    } else if lv == 6 {
        ||| exp_rep(v, i, j, e, 7)
        ||| match e {
            ExpV::Negate(inner) => v[i] == TokenV::Minus && exp_rep(v, i + 1, j, *inner, 6),
            ExpV::Not(inner) => v[i] == TokenV::Not && exp_rep(v, i + 1, j, *inner, 6),
            _ => false,
        }
    } else {
        ||| match e {
            ExpV::Int(n) => j == i + 1 && v[i] == TokenV::Int(n),
            ExpV::Str(t) => j == i + 1 && v[i] == TokenV::Str(t),
            ExpV::Bool(b) => j == i + 1 && v[i] == TokenV::Bool(b),
            ExpV::Var(name) => j == i + 1 && v[i] == TokenV::Var(name),
            ExpV::Call(name, args) => j >= i + 3 && v[i] == TokenV::Var(name) && v[i + 1]
                == TokenV::LeftParen && v[j - 1] == TokenV::RightParen && exps_rep(
                v,
                i + 2,
                j - 1,
                args,
            ),
            ExpV::Struct(name, fields) => j >= i + 2 && v[i] == TokenV::LeftCurly && v[j - 1]
                == TokenV::RightCurly && field_inits_rep(v, i + 1, j - 1, fields),
            ExpV::List(elem, items) => {
                ||| (j >= i + 2 && v[i] == TokenV::LeftBrace && v[j - 1] == TokenV::RightBrace
                    && exps_rep(v, i + 1, j - 1, items))
                ||| (j >= i + 5 && v[i] == TokenV::LeftBrace && (v[i + 1] == TokenV::TypeName(elem)
                    || (elem is Struct && v[i + 1] == TokenV::Var(elem->Struct_0))) && v[i + 2]
                    == TokenV::RightBrace && v[i + 3] == TokenV::LeftBrace && v[j - 1]
                    == TokenV::RightBrace && exps_rep(v, i + 4, j - 1, items))
            },
            ExpV::HOF(p, b) => {
                &&& j >= i + 8
                &&& v[i] == TokenV::LeftParen
                &&& v[i + 1] == TokenV::Var(p.name)
                &&& v[i + 2] == TokenV::RightParen
                &&& v[i + 3] == TokenV::LeftCurly
                &&& v[i + 4] == TokenV::Return
                &&& v[j - 2] == TokenV::Semicolon
                &&& v[j - 1] == TokenV::RightCurly
                &&& p.value is None
                &&& exp_rep(v, i + 5, j - 2, *b, 0)
            },
            _ => false,
        }
        ||| (v[i] == TokenV::LeftParen && v[j - 1] == TokenV::RightParen && j >= i + 3
            && exp_rep(v, i + 1, j - 1, e, 0))
    }
}

/// The tokens `[i, j)` spell the type `t`: a primitive type name, a struct
/// name, a bracketed list type, or a parenthesized function type.
pub open spec fn type_rep(v: Seq<TokenV>, i: int, j: int, t: TypeV) -> bool
    decreases j - i,
{
    0 <= i < j <= v.len() && {
        ||| (j == i + 1 && v[i] == TokenV::TypeName(t))
        ||| (j == i + 1 && t is Struct && v[i] == TokenV::Var(t->Struct_0))
        ||| (j == i + 3 && v[i] == TokenV::LeftBrace && v[i + 2] == TokenV::RightBrace
            && exists|et: TypeV|
            #![trigger list_type_of(et)]
            {
                &&& list_type_of(et) == Some(t)
                &&& (v[i + 1] == TokenV::TypeName(et) || (et is Struct && v[i + 1]
                    == TokenV::Var(et->Struct_0)))
            })
        ||| (t is HigherOrderFunction && v[i] == TokenV::LeftParen && v[j - 1]
            == TokenV::RightParen && exists|k: int|
            #![trigger v[k]]
            {
                &&& i + 1 < k < j - 1
                &&& v[k] == TokenV::Output
                &&& type_rep(v, i + 1, k, *t->HigherOrderFunction_0)
                &&& type_rep(v, k + 1, j - 1, *t->HigherOrderFunction_1)
            })
    }
}

/// Comma-separated expressions cover `[i, j)`: each element on its own
/// span, a comma between elements, and at most one trailing comma.
pub open spec fn exps_rep(v: Seq<TokenV>, i: int, j: int, es: Seq<ExpV>) -> bool
    decreases j - i, 8int,
{
    0 <= i <= j <= v.len() && if es.len() == 0 {
        i == j
    } else {
        exists|k: int|
            #![trigger v[k]]
            {
                &&& i < k <= j
                &&& (k == j || v[k] == TokenV::Comma)
                &&& exp_rep(v, i, k, es[0], 0)
                &&& if es.len() == 1 {
                    k == j || k + 1 == j
                } else {
                    k < j && v[k] == TokenV::Comma && exps_rep(
                        v,
                        k + 1,
                        j,
                        es.subrange(1, es.len() as int),
                    )
                }
            }
    }
}

/// Comma-separated field bindings `name: value` cover `[i, j)`, at most one
/// trailing comma.
pub open spec fn field_inits_rep(v: Seq<TokenV>, i: int, j: int, fs: Seq<(Seq<char>, ExpV)>) -> bool
    decreases j - i, 8int,
{
    0 <= i <= j <= v.len() && if fs.len() == 0 {
        i == j
    } else {
        exists|k: int|
            #![trigger v[k]]
            {
                &&& i + 2 < k <= j
                &&& v[i] == TokenV::Var(fs[0].0)
                &&& v[i + 1] == TokenV::Colon
                &&& (k == j || v[k] == TokenV::Comma)
                &&& exp_rep(v, i + 2, k, fs[0].1, 0)
                &&& if fs.len() == 1 {
                    k == j || k + 1 == j
                } else {
                    k < j && v[k] == TokenV::Comma && field_inits_rep(
                        v,
                        k + 1,
                        j,
                        fs.subrange(1, fs.len() as int),
                    )
                }
            }
    }
}

/// Comma-separated typed bindings `name: type` cover `[i, j)`, at most one
/// trailing comma: the form of parameter lists and struct-definition field
/// lists.
pub open spec fn bindings_rep(v: Seq<TokenV>, i: int, j: int, bs: Seq<VarV>) -> bool
    decreases j - i,
{
    0 <= i <= j <= v.len() && if bs.len() == 0 {
        i == j
    } else {
        exists|k: int|
            #![trigger type_rep(v, i + 2, k, bs[0].var_type)]
            {
                &&& i + 2 < k <= j
                &&& v[i] == TokenV::Var(bs[0].name)
                &&& v[i + 1] == TokenV::Colon
                &&& bs[0].value is None
                &&& type_rep(v, i + 2, k, bs[0].var_type)
                &&& if bs.len() == 1 {
                    k == j || (k < j && v[k] == TokenV::Comma && k + 1 == j)
                } else {
                    k < j && v[k] == TokenV::Comma && bindings_rep(
                        v,
                        k + 1,
                        j,
                        bs.subrange(1, bs.len() as int),
                    )
                }
            }
    }
}

/// A run of comma-closed expressions: every element has its comma.
spec fn exps_comma_rep(v: Seq<TokenV>, i: int, m: int, es: Seq<ExpV>) -> bool
    decreases m - i,
{
    0 <= i <= m <= v.len() && if es.len() == 0 {
        i == m
    } else {
        exists|k: int|
            #![trigger exp_rep(v, i, k, es[0], 0)]
            {
                &&& i < k < m
                &&& exp_rep(v, i, k, es[0], 0)
                &&& v[k] == TokenV::Comma
                &&& exps_comma_rep(v, k + 1, m, es.subrange(1, es.len() as int))
            }
    }
}

proof fn lemma_exps_comma_snoc(v: Seq<TokenV>, i: int, j: int, ke: int, es: Seq<ExpV>, x: ExpV)
    requires
        exps_comma_rep(v, i, j, es),
        exp_rep(v, j, ke, x, 0),
        ke < v.len(),
        v[ke] == TokenV::Comma,
    ensures
        exps_comma_rep(v, i, ke + 1, es.push(x)),
    decreases es.len(),
{
    if es.len() == 0 {
        assert(es.push(x)[0] == x);
        assert(es.push(x).subrange(1, 1) =~= Seq::<ExpV>::empty());
        assert(exps_comma_rep(v, ke + 1, ke + 1, es.push(x).subrange(1, 1)));
    } else {
        let mid = choose|k: int|
            #![trigger exp_rep(v, i, k, es[0], 0)]
            {
                &&& i < k < j
                &&& exp_rep(v, i, k, es[0], 0)
                &&& v[k] == TokenV::Comma
                &&& exps_comma_rep(v, k + 1, j, es.subrange(1, es.len() as int))
            };
        lemma_exps_comma_snoc(v, mid + 1, j, ke, es.subrange(1, es.len() as int), x);
        assert(es.push(x).subrange(1, es.len() as int + 1) =~= es.subrange(
            1,
            es.len() as int,
        ).push(x));
        assert(es.push(x)[0] == es[0]);
        assert(exp_rep(v, i, mid, es.push(x)[0], 0));
    }
}

proof fn lemma_exps_comma_to_rep(v: Seq<TokenV>, i: int, j: int, es: Seq<ExpV>)
    requires
        exps_comma_rep(v, i, j, es),
    ensures
        exps_rep(v, i, j, es),
    decreases es.len(),
{
    if es.len() > 0 {
        let mid = choose|k: int|
            #![trigger exp_rep(v, i, k, es[0], 0)]
            {
                &&& i < k < j
                &&& exp_rep(v, i, k, es[0], 0)
                &&& v[k] == TokenV::Comma
                &&& exps_comma_rep(v, k + 1, j, es.subrange(1, es.len() as int))
            };
        let boundary = v[mid];
        lemma_exps_comma_to_rep(v, mid + 1, j, es.subrange(1, es.len() as int));
    }
}

proof fn lemma_exps_comma_final(v: Seq<TokenV>, i: int, j: int, k2: int, es: Seq<ExpV>, x: ExpV)
    requires
        exps_comma_rep(v, i, j, es),
        exp_rep(v, j, k2, x, 0),
    ensures
        exps_rep(v, i, k2, es.push(x)),
    decreases es.len(),
{
    if es.len() == 0 {
        let boundary = v[k2];
        assert(es.push(x)[0] == x);
    } else {
        let mid = choose|k: int|
            #![trigger exp_rep(v, i, k, es[0], 0)]
            {
                &&& i < k < j
                &&& exp_rep(v, i, k, es[0], 0)
                &&& v[k] == TokenV::Comma
                &&& exps_comma_rep(v, k + 1, j, es.subrange(1, es.len() as int))
            };
        let boundary = v[mid];
        lemma_exps_comma_final(v, mid + 1, j, k2, es.subrange(1, es.len() as int), x);
        assert(es.push(x).subrange(1, es.len() as int + 1) =~= es.subrange(
            1,
            es.len() as int,
        ).push(x));
        assert(es.push(x)[0] == es[0]);
        assert(exp_rep(v, i, mid, es.push(x)[0], 0));
    }
}

/// A run of comma-closed field bindings: every binding has its comma.
spec fn fields_comma_rep(v: Seq<TokenV>, i: int, m: int, fs: Seq<(Seq<char>, ExpV)>) -> bool
    decreases m - i,
{
    0 <= i <= m <= v.len() && if fs.len() == 0 {
        i == m
    } else {
        exists|k: int|
            #![trigger exp_rep(v, i + 2, k, fs[0].1, 0)]
            {
                &&& i + 2 < k < m
                &&& v[i] == TokenV::Var(fs[0].0)
                &&& v[i + 1] == TokenV::Colon
                &&& exp_rep(v, i + 2, k, fs[0].1, 0)
                &&& v[k] == TokenV::Comma
                &&& fields_comma_rep(v, k + 1, m, fs.subrange(1, fs.len() as int))
            }
    }
}

proof fn lemma_fields_comma_snoc(
    v: Seq<TokenV>,
    i: int,
    j: int,
    ke: int,
    fs: Seq<(Seq<char>, ExpV)>,
    x: (Seq<char>, ExpV),
)
    requires
        fields_comma_rep(v, i, j, fs),
        j + 2 < ke < v.len(),
        v[j] == TokenV::Var(x.0),
        v[j + 1] == TokenV::Colon,
        exp_rep(v, j + 2, ke, x.1, 0),
        v[ke] == TokenV::Comma,
    ensures
        fields_comma_rep(v, i, ke + 1, fs.push(x)),
    decreases fs.len(),
{
    if fs.len() == 0 {
        assert(fs.push(x)[0] == x);
        assert(fs.push(x).subrange(1, 1) =~= Seq::<(Seq<char>, ExpV)>::empty());
        assert(fields_comma_rep(v, ke + 1, ke + 1, fs.push(x).subrange(1, 1)));
    } else {
        let mid = choose|k: int|
            #![trigger exp_rep(v, i + 2, k, fs[0].1, 0)]
            {
                &&& i + 2 < k < j
                &&& v[i] == TokenV::Var(fs[0].0)
                &&& v[i + 1] == TokenV::Colon
                &&& exp_rep(v, i + 2, k, fs[0].1, 0)
                &&& v[k] == TokenV::Comma
                &&& fields_comma_rep(v, k + 1, j, fs.subrange(1, fs.len() as int))
            };
        lemma_fields_comma_snoc(v, mid + 1, j, ke, fs.subrange(1, fs.len() as int), x);
        assert(fs.push(x).subrange(1, fs.len() as int + 1) =~= fs.subrange(
            1,
            fs.len() as int,
        ).push(x));
        assert(fs.push(x)[0] == fs[0]);
        assert(exp_rep(v, i + 2, mid, fs.push(x)[0].1, 0));
    }
}

proof fn lemma_fields_comma_to_rep(v: Seq<TokenV>, i: int, j: int, fs: Seq<(Seq<char>, ExpV)>)
    requires
        fields_comma_rep(v, i, j, fs),
    ensures
        field_inits_rep(v, i, j, fs),
    decreases fs.len(),
{
    if fs.len() > 0 {
        let mid = choose|k: int|
            #![trigger exp_rep(v, i + 2, k, fs[0].1, 0)]
            {
                &&& i + 2 < k < j
                &&& v[i] == TokenV::Var(fs[0].0)
                &&& v[i + 1] == TokenV::Colon
                &&& exp_rep(v, i + 2, k, fs[0].1, 0)
                &&& v[k] == TokenV::Comma
                &&& fields_comma_rep(v, k + 1, j, fs.subrange(1, fs.len() as int))
            };
        let boundary = v[mid];
        lemma_fields_comma_to_rep(v, mid + 1, j, fs.subrange(1, fs.len() as int));
    }
}

proof fn lemma_fields_comma_final(
    v: Seq<TokenV>,
    i: int,
    j: int,
    k2: int,
    fs: Seq<(Seq<char>, ExpV)>,
    x: (Seq<char>, ExpV),
)
    requires
        fields_comma_rep(v, i, j, fs),
        j + 2 < k2,
        v[j] == TokenV::Var(x.0),
        v[j + 1] == TokenV::Colon,
        exp_rep(v, j + 2, k2, x.1, 0),
    ensures
        field_inits_rep(v, i, k2, fs.push(x)),
    decreases fs.len(),
{
    if fs.len() == 0 {
        let boundary = v[k2];
        assert(fs.push(x)[0] == x);
    } else {
        let mid = choose|k: int|
            #![trigger exp_rep(v, i + 2, k, fs[0].1, 0)]
            {
                &&& i + 2 < k < j
                &&& v[i] == TokenV::Var(fs[0].0)
                &&& v[i + 1] == TokenV::Colon
                &&& exp_rep(v, i + 2, k, fs[0].1, 0)
                &&& v[k] == TokenV::Comma
                &&& fields_comma_rep(v, k + 1, j, fs.subrange(1, fs.len() as int))
            };
        let boundary = v[mid];
        lemma_fields_comma_final(v, mid + 1, j, k2, fs.subrange(1, fs.len() as int), x);
        assert(fs.push(x).subrange(1, fs.len() as int + 1) =~= fs.subrange(
            1,
            fs.len() as int,
        ).push(x));
        assert(fs.push(x)[0] == fs[0]);
        assert(exp_rep(v, i + 2, mid, fs.push(x)[0].1, 0));
    }
}

/// A run of comma-closed typed bindings: every binding has its comma.
spec fn bindings_comma_rep(v: Seq<TokenV>, i: int, m: int, bs: Seq<VarV>) -> bool
    decreases m - i,
{
    0 <= i <= m <= v.len() && if bs.len() == 0 {
        i == m
    } else {
        exists|k: int|
            #![trigger type_rep(v, i + 2, k, bs[0].var_type)]
            {
                &&& i + 2 < k < m
                &&& v[i] == TokenV::Var(bs[0].name)
                &&& v[i + 1] == TokenV::Colon
                &&& bs[0].value is None
                &&& type_rep(v, i + 2, k, bs[0].var_type)
                &&& v[k] == TokenV::Comma
                &&& bindings_comma_rep(v, k + 1, m, bs.subrange(1, bs.len() as int))
            }
    }
}

proof fn lemma_bindings_comma_snoc(v: Seq<TokenV>, i: int, j: int, ke: int, bs: Seq<VarV>, x: VarV)
    requires
        bindings_comma_rep(v, i, j, bs),
        j + 2 < ke < v.len(),
        v[j] == TokenV::Var(x.name),
        v[j + 1] == TokenV::Colon,
        x.value is None,
        type_rep(v, j + 2, ke, x.var_type),
        v[ke] == TokenV::Comma,
    ensures
        bindings_comma_rep(v, i, ke + 1, bs.push(x)),
    decreases bs.len(),
{
    if bs.len() == 0 {
        assert(bs.push(x)[0] == x);
        assert(bs.push(x).subrange(1, 1) =~= Seq::<VarV>::empty());
        assert(bindings_comma_rep(v, ke + 1, ke + 1, bs.push(x).subrange(1, 1)));
    } else {
        let mid = choose|k: int|
            #![trigger type_rep(v, i + 2, k, bs[0].var_type)]
            {
                &&& i + 2 < k < j
                &&& v[i] == TokenV::Var(bs[0].name)
                &&& v[i + 1] == TokenV::Colon
                &&& bs[0].value is None
                &&& type_rep(v, i + 2, k, bs[0].var_type)
                &&& v[k] == TokenV::Comma
                &&& bindings_comma_rep(v, k + 1, j, bs.subrange(1, bs.len() as int))
            };
        lemma_bindings_comma_snoc(v, mid + 1, j, ke, bs.subrange(1, bs.len() as int), x);
        assert(bs.push(x).subrange(1, bs.len() as int + 1) =~= bs.subrange(
            1,
            bs.len() as int,
        ).push(x));
        assert(bs.push(x)[0] == bs[0]);
        assert(type_rep(v, i + 2, mid, bs.push(x)[0].var_type));
    }
}

proof fn lemma_bindings_comma_to_rep(v: Seq<TokenV>, i: int, j: int, bs: Seq<VarV>)
    requires
        bindings_comma_rep(v, i, j, bs),
    ensures
        bindings_rep(v, i, j, bs),
    decreases bs.len(),
{
    if bs.len() > 0 {
        let mid = choose|k: int|
            #![trigger type_rep(v, i + 2, k, bs[0].var_type)]
            {
                &&& i + 2 < k < j
                &&& v[i] == TokenV::Var(bs[0].name)
                &&& v[i + 1] == TokenV::Colon
                &&& bs[0].value is None
                &&& type_rep(v, i + 2, k, bs[0].var_type)
                &&& v[k] == TokenV::Comma
                &&& bindings_comma_rep(v, k + 1, j, bs.subrange(1, bs.len() as int))
            };
        lemma_bindings_comma_to_rep(v, mid + 1, j, bs.subrange(1, bs.len() as int));
    }
}

proof fn lemma_bindings_comma_final(
    v: Seq<TokenV>,
    i: int,
    j: int,
    k2: int,
    bs: Seq<VarV>,
    x: VarV,
)
    requires
        bindings_comma_rep(v, i, j, bs),
        j + 2 < k2,
        v[j] == TokenV::Var(x.name),
        v[j + 1] == TokenV::Colon,
        x.value is None,
        type_rep(v, j + 2, k2, x.var_type),
    ensures
        bindings_rep(v, i, k2, bs.push(x)),
    decreases bs.len(),
{
    if bs.len() == 0 {
        assert(bs.push(x)[0] == x);
    } else {
        let mid = choose|k: int|
            #![trigger type_rep(v, i + 2, k, bs[0].var_type)]
            {
                &&& i + 2 < k < j
                &&& v[i] == TokenV::Var(bs[0].name)
                &&& v[i + 1] == TokenV::Colon
                &&& bs[0].value is None
                &&& type_rep(v, i + 2, k, bs[0].var_type)
                &&& v[k] == TokenV::Comma
                &&& bindings_comma_rep(v, k + 1, j, bs.subrange(1, bs.len() as int))
            };
        lemma_bindings_comma_final(v, mid + 1, j, k2, bs.subrange(1, bs.len() as int), x);
        assert(bs.push(x).subrange(1, bs.len() as int + 1) =~= bs.subrange(
            1,
            bs.len() as int,
        ).push(x));
        assert(bs.push(x)[0] == bs[0]);
        assert(type_rep(v, i + 2, mid, bs.push(x)[0].var_type));
    }
}

/// A statement covers `[i, j)`: its leading keyword, the names and types it
/// declares, its closing delimiter, the expression at its head, the typed
/// bindings of its parameter or field list, and the statements of its
/// nested blocks, each placed on its own token span.
pub open spec fn stmt_rep(v: Seq<TokenV>, i: int, j: int, s: StmtV) -> bool
    decreases j - i, 0int,
{
    0 <= i < j <= v.len() && match s {
        StmtV::Assignment(var, e) => {
            &&& v[i] == TokenV::Let
            &&& v[i + 1] == TokenV::Var(var.name)
            &&& v[i + 2] == TokenV::Colon
            &&& v[j - 1] == TokenV::Semicolon
            &&& var.value is None
            &&& exists|k: int|
                #![trigger v[k]]
                {
                    &&& i + 3 < k
                    &&& k + 1 < j
                    &&& type_rep(v, i + 3, k, var.var_type)
                    &&& v[k] == TokenV::Assign
                    &&& exp_rep(v, k + 1, j - 1, e, 0)
                }
        },
        StmtV::Return(e) => {
            &&& v[i] == TokenV::Return
            &&& v[j - 1] == TokenV::Semicolon
            &&& exp_rep(v, i + 1, j - 1, e, 0)
        },
        StmtV::If(ifs) => {
            &&& (v[i] == TokenV::If || v[i] == TokenV::Elif)
            &&& v[i + 1] == TokenV::LeftParen
            &&& v[j - 1] == TokenV::RightCurly
            &&& exists|k: int, m: int|
                #![trigger v[k], v[m - 1]]
                {
                    &&& i + 2 < k
                    &&& k + 1 < m <= j
                    &&& v[k] == TokenV::RightParen
                    &&& v[m - 1] == TokenV::RightCurly
                    &&& exp_rep(v, i + 2, k, ifs.condition, 0)
                    &&& block_rep(v, k + 1, m, ifs.true_branch)
                    &&& match ifs.false_branch {
                        None => m == j,
                        Some(fb) => {
                            ||| (m < j && v[m] == TokenV::Else && block_rep(v, m + 1, j, fb))
                            ||| (m < j && v[m] == TokenV::Elif && fb.len() == 1 && stmt_rep(
                                v,
                                m,
                                j,
                                fb[0],
                            ))
                        },
                    }
                }
        },
        StmtV::While(w) => {
            &&& v[i] == TokenV::While
            &&& v[i + 1] == TokenV::LeftParen
            &&& v[j - 1] == TokenV::RightCurly
            &&& exists|k: int|
                #![trigger v[k]]
                {
                    &&& i + 2 < k
                    &&& k + 1 < j
                    &&& v[k] == TokenV::RightParen
                    &&& exp_rep(v, i + 2, k, w.condition, 0)
                    &&& block_rep(v, k + 1, j, w.block)
                }
        },
        StmtV::For(f) => {
            &&& v[i] == TokenV::For
            &&& v[i + 1] == TokenV::Var(f.iter.name)
            &&& v[i + 2] == TokenV::In
            &&& v[j - 1] == TokenV::RightCurly
            &&& f.iter.var_type == TypeV::Void
            &&& f.iter.value is None
            &&& exists|k: int|
                #![trigger exp_rep(v, i + 3, k, f.list, 0)]
                {
                    &&& i + 3 < k < j
                    &&& exp_rep(v, i + 3, k, f.list, 0)
                    &&& block_rep(v, k, j, f.block)
                }
        },
        StmtV::Function(f) => {
            &&& v[i] == TokenV::Function
            &&& v[i + 1] == TokenV::Var(f.name)
            &&& v[i + 2] == TokenV::LeftParen
            &&& v[j - 1] == TokenV::RightCurly
            &&& f.output.name == f.name
            &&& f.output.value is None
            &&& exists|a: int, b: int|
                #![trigger v[a], type_rep(v, a + 1, b, f.output.var_type)]
                {
                    &&& i + 3 < a
                    &&& a + 1 < b <= j
                    &&& v[a - 1] == TokenV::RightParen
                    &&& v[a] == TokenV::Output
                    &&& bindings_rep(v, i + 3, a - 1, f.param)
                    &&& type_rep(v, a + 1, b, f.output.var_type)
                    &&& block_rep(v, b, j, f.block)
                }
        },
        StmtV::StructDef(d) => {
            &&& j >= i + 4
            &&& v[i] == TokenV::Struct
            &&& v[i + 1] == TokenV::Var(d.name)
            &&& v[i + 2] == TokenV::LeftCurly
            &&& v[j - 1] == TokenV::RightCurly
            &&& bindings_rep(v, i + 3, j - 1, d.fields)
        },
    }
}

/// The token that closes a statement: the semicolon of a `let` or
/// `return`, the right curly brace of every other form.
pub open spec fn stmt_closer(s: StmtV) -> TokenV {
    match s {
        StmtV::Assignment(_, _) => TokenV::Semicolon,
        StmtV::Return(_) => TokenV::Semicolon,
        _ => TokenV::RightCurly,
    }
}

/// A statement's span ends with its closing token.
proof fn lemma_stmt_rep_closer(v: Seq<TokenV>, i: int, j: int, s: StmtV)
    requires
        stmt_rep(v, i, j, s),
    ensures
        v[j - 1] == stmt_closer(s),
{
}

/// The statements cover `[i, j)` in order, each on its own token span; the
/// closing token of the leading statement stands at its boundary.
pub open spec fn stmts_rep(v: Seq<TokenV>, i: int, j: int, ss: Seq<StmtV>) -> bool
    decreases j - i, 1int,
{
    0 <= i <= j <= v.len() && if ss.len() == 0 {
        i == j
    } else {
        exists|k: int|
            #![trigger v[k - 1]]
            {
                &&& i < k <= j
                &&& v[k - 1] == stmt_closer(ss[0])
                &&& stmt_rep(v, i, k, ss[0])
                &&& stmts_rep(v, k, j, ss.subrange(1, ss.len() as int))
            }
    }
}

/// A brace-delimited block covers `[i, j)`, its statements partitioning the
/// inside.
pub open spec fn block_rep(v: Seq<TokenV>, i: int, j: int, ss: Seq<StmtV>) -> bool
    decreases j - i, 2int,
{
    &&& 0 <= i < j <= v.len()
    &&& j >= i + 2
    &&& v[i] == TokenV::LeftCurly
    &&& v[j - 1] == TokenV::RightCurly
    &&& stmts_rep(v, i + 1, j - 1, ss)
}

/// One program item covers `[i, k)`: a statement of its form, or a bare
/// expression closed by a semicolon.
pub open spec fn item_rep(v: Seq<TokenV>, i: int, k: int, item: ItemV) -> bool {
    match item {
        ItemV::Stmt(s) => stmt_rep(v, i, k, s),
        ItemV::Exp(e) => i < k - 1 && v[k - 1] == TokenV::Semicolon && exp_rep(v, i, k - 1, e, 0),
    }
}

/// The last item of a program may also be a bare expression without the
/// closing semicolon, when the input ends with it.
pub open spec fn item_rep_last(v: Seq<TokenV>, i: int, k: int, item: ItemV) -> bool {
    item_rep(v, i, k, item) || (item is Exp && exp_rep(v, i, k, item->Exp_0, 0))
}

/// The items cover `[i, j)` in order, each spanning its own tokens; only
/// the final item may stand as a bare expression without its semicolon.
pub open spec fn items_rep(v: Seq<TokenV>, i: int, j: int, items: Seq<ItemV>) -> bool
    decreases items.len(),
{
    if items.len() == 0 {
        i == j
    } else {
        exists|k: int|
            #![trigger item_rep(v, i, k, items[0])]
            #![trigger item_rep_last(v, i, k, items[0])]
            {
                &&& i < k <= j
                &&& if items.len() == 1 {
                    item_rep_last(v, i, k, items[0])
                } else {
                    item_rep(v, i, k, items[0])
                }
                &&& items_rep(v, k, j, items.subrange(1, items.len() as int))
            }
    }
}

/// As `items_rep`, with every item, the last included, closed in its own
/// right.
pub open spec fn items_rep_strict(v: Seq<TokenV>, i: int, j: int, items: Seq<ItemV>) -> bool
    decreases items.len(),
{
    if items.len() == 0 {
        i == j
    } else {
        exists|k: int|
            #![trigger item_rep(v, i, k, items[0])]
            {
                &&& i < k <= j
                &&& item_rep(v, i, k, items[0])
                &&& items_rep_strict(v, k, j, items.subrange(1, items.len() as int))
            }
    }
}

/// Fully closed items are in particular items.
proof fn lemma_items_rep_strict_weaken(v: Seq<TokenV>, i: int, j: int, items: Seq<ItemV>)
    requires
        items_rep_strict(v, i, j, items),
    ensures
        items_rep(v, i, j, items),
    decreases items.len(),
{
    if items.len() > 0 {
        let k = choose|k: int|
            #![trigger item_rep(v, i, k, items[0])]
            {
                &&& i < k <= j
                &&& item_rep(v, i, k, items[0])
                &&& items_rep_strict(v, k, j, items.subrange(1, items.len() as int))
            };
        lemma_items_rep_strict_weaken(v, k, j, items.subrange(1, items.len() as int));
        assert(items_rep(v, k, j, items.subrange(1, items.len() as int)));
    }
}

/// Closed items covering `[i, j)` followed by one more closed item covering
/// `[j, k2)` cover `[i, k2)`.
proof fn lemma_items_rep_snoc_strict(
    v: Seq<TokenV>,
    i: int,
    j: int,
    k2: int,
    items: Seq<ItemV>,
    x: ItemV,
)
    requires
        items_rep_strict(v, i, j, items),
        item_rep(v, j, k2, x),
        j < k2,
    ensures
        items_rep_strict(v, i, k2, items.push(x)),
    decreases items.len(),
{
    if items.len() == 0 {
        assert(items.push(x)[0] == x);
        assert(items.push(x).subrange(1, 1) =~= Seq::<ItemV>::empty());
        assert(items_rep_strict(v, k2, k2, items.push(x).subrange(1, 1)));
    } else {
        let mid = choose|k: int|
            #![trigger item_rep(v, i, k, items[0])]
            {
                &&& i < k <= j
                &&& item_rep(v, i, k, items[0])
                &&& items_rep_strict(v, k, j, items.subrange(1, items.len() as int))
            };
        lemma_items_rep_snoc_strict(v, mid, j, k2, items.subrange(1, items.len() as int), x);
        assert(items.push(x).subrange(1, items.len() as int + 1) =~= items.subrange(
            1,
            items.len() as int,
        ).push(x));
        assert(items.push(x)[0] == items[0]);
        assert(item_rep(v, i, mid, items.push(x)[0]));
    }
}

/// Closed items followed by one final, possibly unterminated, expression
/// item cover the whole span.
proof fn lemma_items_rep_snoc_last(
    v: Seq<TokenV>,
    i: int,
    j: int,
    k2: int,
    items: Seq<ItemV>,
    x: ItemV,
)
    requires
        items_rep_strict(v, i, j, items),
        item_rep_last(v, j, k2, x),
        j < k2,
    ensures
        items_rep(v, i, k2, items.push(x)),
    decreases items.len(),
{
    if items.len() == 0 {
        assert(items.push(x)[0] == x);
        assert(items.push(x).subrange(1, 1) =~= Seq::<ItemV>::empty());
        assert(items_rep(v, k2, k2, items.push(x).subrange(1, 1)));
    } else {
        let mid = choose|k: int|
            #![trigger item_rep(v, i, k, items[0])]
            {
                &&& i < k <= j
                &&& item_rep(v, i, k, items[0])
                &&& items_rep_strict(v, k, j, items.subrange(1, items.len() as int))
            };
        lemma_items_rep_snoc_last(v, mid, j, k2, items.subrange(1, items.len() as int), x);
        assert(items.push(x).subrange(1, items.len() as int + 1) =~= items.subrange(
            1,
            items.len() as int,
        ).push(x));
        assert(items.push(x)[0] == items[0]);
        assert(item_rep(v, i, mid, items.push(x)[0]));
    }
}

/// Statements covering `[i, j)` followed by one more covering `[j, k2)`
/// cover `[i, k2)`.
proof fn lemma_stmts_rep_snoc(v: Seq<TokenV>, i: int, j: int, k2: int, ss: Seq<StmtV>, x: StmtV)
    requires
        stmts_rep(v, i, j, ss),
        stmt_rep(v, j, k2, x),
        j < k2,
        k2 <= v.len(),
    ensures
        stmts_rep(v, i, k2, ss.push(x)),
    decreases ss.len(),
{
    if ss.len() == 0 {
        lemma_stmt_rep_closer(v, j, k2, x);
        assert(ss.push(x)[0] == x);
        assert(ss.push(x).subrange(1, 1) =~= Seq::<StmtV>::empty());
        assert(stmts_rep(v, k2, k2, ss.push(x).subrange(1, 1)));
    } else {
        let mid = choose|k: int|
            #![trigger v[k - 1]]
            {
                &&& i < k <= j
                &&& v[k - 1] == stmt_closer(ss[0])
                &&& stmt_rep(v, i, k, ss[0])
                &&& stmts_rep(v, k, j, ss.subrange(1, ss.len() as int))
            };
        lemma_stmts_rep_snoc(v, mid, j, k2, ss.subrange(1, ss.len() as int), x);
        assert(ss.push(x).subrange(1, ss.len() as int + 1) =~= ss.subrange(
            1,
            ss.len() as int,
        ).push(x));
        assert(ss.push(x)[0] == ss[0]);
        assert(stmt_rep(v, i, mid, ss.push(x)[0]));
    }
}

// ---------------------------------------------------------------------------
// Types in the source syntax
// ---------------------------------------------------------------------------

/// Parses a type: a primitive or struct name, a list type `[t]`, or a
/// function type `(t -> t)`.  A successful result spells exactly the
/// consumed tokens, per `type_rep`.
fn parse_type(toks: &Vec<Token>, pos: usize) -> (r: Result<(Type, usize), SyntaxError>)
    requires
        pos <= toks@.len(),
    ensures
        match r {
            Ok(p) => pos < p.1 <= toks@.len() && type_rep(
                toks.deep_view(),
                pos as int,
                p.1 as int,
                p.0@,
            ),
            Err(_) => true,
        },
    decreases toks@.len() - pos,
{
    let ghost v = toks.deep_view();
    if pos >= toks.len() {
        return Err(SyntaxError { position: pos, expected: Expected::EndOfInput });
    }
    proof {
        assert(v[pos as int] == toks@[pos as int]@);
    }
    match &toks[pos] {
        Token::TypeName(t) => Ok((t.clone(), pos + 1)),
        Token::Var(name) => Ok((Type::Struct(name.clone()), pos + 1)),
        Token::LeftBrace => {
            // a list type: `[` element `]`
            if pos + 1 >= toks.len() {
                return Err(SyntaxError { position: pos + 1, expected: Expected::TypeName });
            }
            let elem = match &toks[pos + 1] {
                Token::TypeName(t) => t.clone(),
                Token::Var(name) => Type::Struct(name.clone()),
                _ => {
                    return Err(SyntaxError { position: pos + 1, expected: Expected::TypeName });
                },
            };
            let lt = match crate::type_checker::list_type(&elem) {
                Some(lt) => lt,
                None => {
                    return Err(SyntaxError { position: pos + 1, expected: Expected::TypeName });
                },
            };
            if pos + 2 >= toks.len() {
                return Err(SyntaxError { position: pos + 2, expected: Expected::ClosingBrace });
            }
            match &toks[pos + 2] {
                Token::RightBrace => {
                    proof {
                        assert(v[pos as int + 1] == toks@[pos as int + 1]@);
                        assert(v[pos as int + 2] == toks@[pos as int + 2]@);
                        assert(list_type_of(elem@) == Some(lt@));
                        assert(type_rep(v, pos as int, pos as int + 3, lt@));
                    }
                    Ok((lt, pos + 3))
                },
                _ => Err(SyntaxError { position: pos + 2, expected: Expected::ClosingBrace }),
            }
        },
        Token::LeftParen => {
            // a function type: `(` input `->` output `)`
            let (input, p1) = match parse_type(toks, pos + 1) {
                Ok(p) => p,
                Err(e) => {
                    return Err(e);
                },
            };
            if p1 >= toks.len() {
                return Err(SyntaxError { position: p1, expected: Expected::OutputArrow });
            }
            match &toks[p1] {
                Token::Output => {},
                _ => {
                    return Err(SyntaxError { position: p1, expected: Expected::OutputArrow });
                },
            }
            let (output, p2) = match parse_type(toks, p1 + 1) {
                Ok(p) => p,
                Err(e) => {
                    return Err(e);
                },
            };
            if p2 >= toks.len() {
                return Err(SyntaxError { position: p2, expected: Expected::ClosingParen });
            }
            match &toks[p2] {
                Token::RightParen => {
                    let ghost iv = input@;
                    let ghost ov = output@;
                    let t = Type::HigherOrderFunction(Box::new(input), Box::new(output));
                    proof {
                        assert(v[p1 as int] == toks@[p1 as int]@);
                        assert(v[p1 as int] == TokenV::Output);
                        assert(v[p2 as int] == toks@[p2 as int]@);
                        assert(t@ == TypeV::HigherOrderFunction(Box::new(iv), Box::new(ov)));
                        assert(type_rep(v, pos as int, p2 as int + 1, t@));
                    }
                    Ok((t, p2 + 1))
                },
                _ => Err(SyntaxError { position: p2, expected: Expected::ClosingParen }),
            }
        },
        _ => Err(SyntaxError { position: pos, expected: Expected::TypeName }),
    }
}

// ---------------------------------------------------------------------------
// Expressions
// ---------------------------------------------------------------------------

/// The declared field type of `field` in struct `name`, when the parser has
/// seen the definition; the hint steers nested structural literals.
fn field_hint(tables: &ParserTables, name: &String, field: &String) -> (r: Option<Type>) {
    let mut i: usize = tables.structs.len();
    while i > 0
        invariant
            i <= tables.structs@.len(),
        decreases i,
    {
        if tables.structs[i - 1].name.eq(name) {
            let entry = &tables.structs[i - 1];
            let mut k: usize = 0;
            while k < entry.fields.len()
                invariant
                    k <= entry.fields@.len(),
                decreases entry.fields@.len() - k,
            {
                if entry.fields[k].0.eq(field) {
                    return Some(entry.fields[k].1.clone());
                }
                k = k + 1;
            }
            return None;
        }
        i = i - 1;
    }
    None
}

/// The declared parameter types of `name`, when the parser has seen the
/// definition.
fn func_hint(tables: &ParserTables, name: &String) -> (r: Option<Vec<Type>>) {
    let mut i: usize = tables.funcs.len();
    while i > 0
        invariant
            i <= tables.funcs@.len(),
        decreases i,
    {
        if tables.funcs[i - 1].0.eq(name) {
            let mut out: Vec<Type> = Vec::new();
            let params = &tables.funcs[i - 1].1;
            let mut k: usize = 0;
            while k < params.len()
                invariant
                    k <= params@.len(),
                decreases params@.len() - k,
            {
                out.push(params[k].clone());
                k = k + 1;
            }
            return Some(out);
        }
        i = i - 1;
    }
    None
}

/// Parses a full expression: the `||` level, the lowest precedence.
/// A successful result is a parse of exactly the consumed tokens at this
/// precedence level, per `exp_rep`.
#[verifier::rlimit(50)]
fn parse_exp(toks: &Vec<Token>, pos: usize, expected: Option<&Type>, tables: &ParserTables) -> (r:
    Result<(Exp, usize), SyntaxError>)
    requires
        pos <= toks@.len(),
    ensures
        match r {
            Ok(p) => pos < p.1 <= toks@.len() && exp_rep(
                toks.deep_view(),
                pos as int,
                p.1 as int,
                exp_view(p.0),
                0,
            ),
            Err(_) => true,
        },
        flat_exp(toks.deep_view(), pos as int, toks@.len() as int) ==> match r {
            Ok(p) => p.1 == toks@.len() || (is_binop_token(toks.deep_view()[p.1 as int])
                && op_level(toks.deep_view()[p.1 as int]) < 0 && flat_exp(
                toks.deep_view(),
                p.1 as int + 1,
                toks@.len() as int,
            )),
            Err(_) => false,
        },
    decreases toks@.len() - pos, 9int,
{
    let ghost v = toks.deep_view();
    let (first, p1) = match parse_and(toks, pos, expected, tables) {
        Ok(p) => p,
        Err(e) => {
            return Err(e);
        },
    };
    proof {
        assert(exp_rep(v, pos as int, p1 as int, exp_view(first), 0));
    }
    let mut left = first;
    let mut cur = p1;
    loop
        invariant
            pos < cur <= toks@.len(),
            v == toks.deep_view(),
            exp_rep(v, pos as int, cur as int, exp_view(left), 0),
            flat_exp(v, pos as int, toks@.len() as int) ==> (cur == toks@.len() || (
            is_binop_token(v[cur as int]) && op_level(v[cur as int]) < 1 && flat_exp(
                v,
                cur as int + 1,
                toks@.len() as int,
            ))),
        ensures
            pos < cur <= toks@.len(),
            exp_rep(v, pos as int, cur as int, exp_view(left), 0),
            flat_exp(v, pos as int, toks@.len() as int) ==> (cur == toks@.len() || (
            is_binop_token(v[cur as int]) && op_level(v[cur as int]) < 0 && flat_exp(
                v,
                cur as int + 1,
                toks@.len() as int,
            ))),
        decreases toks@.len() - cur,
    {
        if cur >= toks.len() {
            break;
        }
        let op = match &toks[cur] {
            Token::Or => Operation::Or,
            _ => {
                proof {
                    assert(v[cur as int] == toks@[cur as int]@);
                }
                break;
            },
        };
        let ghost old_left = exp_view(left);
        let ghost kk = cur as int;
        proof {
            assert(v[kk] == toks@[kk]@);
            assert(level_op(0, v[kk]) == Some(op));
        }
        let (right, p2) = match parse_and(toks, cur + 1, expected, tables) {
            Ok(p) => p,
            Err(e) => {
                return Err(e);
            },
        };
        let ghost rv = exp_view(right);
        left = Exp::Op(op, Box::new(left), Box::new(right));
        proof {
            assert(exp_view(left) == ExpV::Op(op, Box::new(old_left), Box::new(rv)));
            assert(exp_rep(v, kk + 1, p2 as int, rv, 1));
            assert(exp_rep(v, pos as int, p2 as int, exp_view(left), 0));
        }
        cur = p2;
    }
    Ok((left, cur))
}

/// The `&&` level.
/// A successful result is a parse of exactly the consumed tokens at this
/// precedence level, per `exp_rep`.
#[verifier::rlimit(50)]
fn parse_and(toks: &Vec<Token>, pos: usize, expected: Option<&Type>, tables: &ParserTables) -> (r:
    Result<(Exp, usize), SyntaxError>)
    requires
        pos <= toks@.len(),
    ensures
        match r {
            Ok(p) => pos < p.1 <= toks@.len() && exp_rep(
                toks.deep_view(),
                pos as int,
                p.1 as int,
                exp_view(p.0),
                1,
            ),
            Err(_) => true,
        },
        flat_exp(toks.deep_view(), pos as int, toks@.len() as int) ==> match r {
            Ok(p) => p.1 == toks@.len() || (is_binop_token(toks.deep_view()[p.1 as int])
                && op_level(toks.deep_view()[p.1 as int]) < 1 && flat_exp(
                toks.deep_view(),
                p.1 as int + 1,
                toks@.len() as int,
            )),
            Err(_) => false,
        },
    decreases toks@.len() - pos, 8int,
{
    let ghost v = toks.deep_view();
    let (first, p1) = match parse_equality(toks, pos, expected, tables) {
        Ok(p) => p,
        Err(e) => {
            return Err(e);
        },
    };
    proof {
        assert(exp_rep(v, pos as int, p1 as int, exp_view(first), 1));
    }
    let mut left = first;
    let mut cur = p1;
    loop
        invariant
            pos < cur <= toks@.len(),
            v == toks.deep_view(),
            exp_rep(v, pos as int, cur as int, exp_view(left), 1),
            flat_exp(v, pos as int, toks@.len() as int) ==> (cur == toks@.len() || (
            is_binop_token(v[cur as int]) && op_level(v[cur as int]) < 2 && flat_exp(
                v,
                cur as int + 1,
                toks@.len() as int,
            ))),
        ensures
            pos < cur <= toks@.len(),
            exp_rep(v, pos as int, cur as int, exp_view(left), 1),
            flat_exp(v, pos as int, toks@.len() as int) ==> (cur == toks@.len() || (
            is_binop_token(v[cur as int]) && op_level(v[cur as int]) < 1 && flat_exp(
                v,
                cur as int + 1,
                toks@.len() as int,
            ))),
        decreases toks@.len() - cur,
    {
        if cur >= toks.len() {
            break;
        }
        let op = match &toks[cur] {
            Token::And => Operation::And,
            _ => {
                proof {
                    assert(v[cur as int] == toks@[cur as int]@);
                }
                break;
            },
        };
        let ghost old_left = exp_view(left);
        let ghost kk = cur as int;
        proof {
            assert(v[kk] == toks@[kk]@);
            assert(level_op(1, v[kk]) == Some(op));
        }
        let (right, p2) = match parse_equality(toks, cur + 1, expected, tables) {
            Ok(p) => p,
            Err(e) => {
                return Err(e);
            },
        };
        let ghost rv = exp_view(right);
        left = Exp::Op(op, Box::new(left), Box::new(right));
        proof {
            assert(exp_view(left) == ExpV::Op(op, Box::new(old_left), Box::new(rv)));
            assert(exp_rep(v, kk + 1, p2 as int, rv, 2));
            assert(exp_rep(v, pos as int, p2 as int, exp_view(left), 1));
        }
        cur = p2;
    }
    Ok((left, cur))
}

/// The `==` / `!=` level.
/// A successful result is a parse of exactly the consumed tokens at this
/// precedence level, per `exp_rep`.
#[verifier::rlimit(50)]
fn parse_equality(toks: &Vec<Token>, pos: usize, expected: Option<&Type>, tables: &ParserTables) -> (r:
    Result<(Exp, usize), SyntaxError>)
    requires
        pos <= toks@.len(),
    ensures
        match r {
            Ok(p) => pos < p.1 <= toks@.len() && exp_rep(
                toks.deep_view(),
                pos as int,
                p.1 as int,
                exp_view(p.0),
                2,
            ),
            Err(_) => true,
        },
        flat_exp(toks.deep_view(), pos as int, toks@.len() as int) ==> match r {
            Ok(p) => p.1 == toks@.len() || (is_binop_token(toks.deep_view()[p.1 as int])
                && op_level(toks.deep_view()[p.1 as int]) < 2 && flat_exp(
                toks.deep_view(),
                p.1 as int + 1,
                toks@.len() as int,
            )),
            Err(_) => false,
        },
    decreases toks@.len() - pos, 7int,
{
    let ghost v = toks.deep_view();
    let (first, p1) = match parse_relational(toks, pos, expected, tables) {
        Ok(p) => p,
        Err(e) => {
            return Err(e);
        },
    };
    proof {
        assert(exp_rep(v, pos as int, p1 as int, exp_view(first), 2));
    }
    let mut left = first;
    let mut cur = p1;
    loop
        invariant
            pos < cur <= toks@.len(),
            v == toks.deep_view(),
            exp_rep(v, pos as int, cur as int, exp_view(left), 2),
            flat_exp(v, pos as int, toks@.len() as int) ==> (cur == toks@.len() || (
            is_binop_token(v[cur as int]) && op_level(v[cur as int]) < 3 && flat_exp(
                v,
                cur as int + 1,
                toks@.len() as int,
            ))),
        ensures
            pos < cur <= toks@.len(),
            exp_rep(v, pos as int, cur as int, exp_view(left), 2),
            flat_exp(v, pos as int, toks@.len() as int) ==> (cur == toks@.len() || (
            is_binop_token(v[cur as int]) && op_level(v[cur as int]) < 2 && flat_exp(
                v,
                cur as int + 1,
                toks@.len() as int,
            ))),
        decreases toks@.len() - cur,
    {
        if cur >= toks.len() {
            break;
        }
        let op = match &toks[cur] {
            Token::Equal => Operation::Equal,
            Token::NotEqual => Operation::NotEqual,
            _ => {
                proof {
                    assert(v[cur as int] == toks@[cur as int]@);
                }
                break;
            },
        };
        let ghost old_left = exp_view(left);
        let ghost kk = cur as int;
        proof {
            assert(v[kk] == toks@[kk]@);
            assert(level_op(2, v[kk]) == Some(op));
        }
        let (right, p2) = match parse_relational(toks, cur + 1, expected, tables) {
            Ok(p) => p,
            Err(e) => {
                return Err(e);
            },
        };
        let ghost rv = exp_view(right);
        left = Exp::Op(op, Box::new(left), Box::new(right));
        proof {
            assert(exp_view(left) == ExpV::Op(op, Box::new(old_left), Box::new(rv)));
            assert(exp_rep(v, kk + 1, p2 as int, rv, 3));
            assert(exp_rep(v, pos as int, p2 as int, exp_view(left), 2));
        }
        cur = p2;
    }
    Ok((left, cur))
}

/// The `<` / `>` / `<=` / `>=` level.
/// A successful result is a parse of exactly the consumed tokens at this
/// precedence level, per `exp_rep`.
#[verifier::rlimit(50)]
fn parse_relational(toks: &Vec<Token>, pos: usize, expected: Option<&Type>, tables: &ParserTables) -> (r:
    Result<(Exp, usize), SyntaxError>)
    requires
        pos <= toks@.len(),
    ensures
        match r {
            Ok(p) => pos < p.1 <= toks@.len() && exp_rep(
                toks.deep_view(),
                pos as int,
                p.1 as int,
                exp_view(p.0),
                3,
            ),
            Err(_) => true,
        },
        flat_exp(toks.deep_view(), pos as int, toks@.len() as int) ==> match r {
            Ok(p) => p.1 == toks@.len() || (is_binop_token(toks.deep_view()[p.1 as int])
                && op_level(toks.deep_view()[p.1 as int]) < 3 && flat_exp(
                toks.deep_view(),
                p.1 as int + 1,
                toks@.len() as int,
            )),
            Err(_) => false,
        },
    decreases toks@.len() - pos, 6int,
{
    let ghost v = toks.deep_view();
    let (first, p1) = match parse_additive(toks, pos, expected, tables) {
        Ok(p) => p,
        Err(e) => {
            return Err(e);
        },
    };
    proof {
        assert(exp_rep(v, pos as int, p1 as int, exp_view(first), 3));
    }
    let mut left = first;
    let mut cur = p1;
    loop
        invariant
            pos < cur <= toks@.len(),
            v == toks.deep_view(),
            exp_rep(v, pos as int, cur as int, exp_view(left), 3),
            flat_exp(v, pos as int, toks@.len() as int) ==> (cur == toks@.len() || (
            is_binop_token(v[cur as int]) && op_level(v[cur as int]) < 4 && flat_exp(
                v,
                cur as int + 1,
                toks@.len() as int,
            ))),
        ensures
            pos < cur <= toks@.len(),
            exp_rep(v, pos as int, cur as int, exp_view(left), 3),
            flat_exp(v, pos as int, toks@.len() as int) ==> (cur == toks@.len() || (
            is_binop_token(v[cur as int]) && op_level(v[cur as int]) < 3 && flat_exp(
                v,
                cur as int + 1,
                toks@.len() as int,
            ))),
        decreases toks@.len() - cur,
    {
        if cur >= toks.len() {
            break;
        }
        let op = match &toks[cur] {
            Token::LessThan => Operation::LessThan,
            Token::GreaterThan => Operation::GreaterThan,
            Token::LessEqual => Operation::LessEqual,
            Token::GreaterEqual => Operation::GreaterEqual,
            _ => {
                proof {
                    assert(v[cur as int] == toks@[cur as int]@);
                }
                break;
            },
        };
        let ghost old_left = exp_view(left);
        let ghost kk = cur as int;
        proof {
            assert(v[kk] == toks@[kk]@);
            assert(level_op(3, v[kk]) == Some(op));
        }
        let (right, p2) = match parse_additive(toks, cur + 1, expected, tables) {
            Ok(p) => p,
            Err(e) => {
                return Err(e);
            },
        };
        let ghost rv = exp_view(right);
        left = Exp::Op(op, Box::new(left), Box::new(right));
        proof {
            assert(exp_view(left) == ExpV::Op(op, Box::new(old_left), Box::new(rv)));
            assert(exp_rep(v, kk + 1, p2 as int, rv, 4));
            assert(exp_rep(v, pos as int, p2 as int, exp_view(left), 3));
        }
        cur = p2;
    }
    Ok((left, cur))
}

/// The `+` / `-` level.
/// A successful result is a parse of exactly the consumed tokens at this
/// precedence level, per `exp_rep`.
#[verifier::rlimit(50)]
fn parse_additive(toks: &Vec<Token>, pos: usize, expected: Option<&Type>, tables: &ParserTables) -> (r:
    Result<(Exp, usize), SyntaxError>)
    requires
        pos <= toks@.len(),
    ensures
        match r {
            Ok(p) => pos < p.1 <= toks@.len() && exp_rep(
                toks.deep_view(),
                pos as int,
                p.1 as int,
                exp_view(p.0),
                4,
            ),
            Err(_) => true,
        },
        flat_exp(toks.deep_view(), pos as int, toks@.len() as int) ==> match r {
            Ok(p) => p.1 == toks@.len() || (is_binop_token(toks.deep_view()[p.1 as int])
                && op_level(toks.deep_view()[p.1 as int]) < 4 && flat_exp(
                toks.deep_view(),
                p.1 as int + 1,
                toks@.len() as int,
            )),
            Err(_) => false,
        },
    decreases toks@.len() - pos, 5int,
{
    let ghost v = toks.deep_view();
    let (first, p1) = match parse_multiplicative(toks, pos, expected, tables) {
        Ok(p) => p,
        Err(e) => {
            return Err(e);
        },
    };
    proof {
        assert(exp_rep(v, pos as int, p1 as int, exp_view(first), 4));
    }
    let mut left = first;
    let mut cur = p1;
    loop
        invariant
            pos < cur <= toks@.len(),
            v == toks.deep_view(),
            exp_rep(v, pos as int, cur as int, exp_view(left), 4),
            flat_exp(v, pos as int, toks@.len() as int) ==> (cur == toks@.len() || (
            is_binop_token(v[cur as int]) && op_level(v[cur as int]) < 5 && flat_exp(
                v,
                cur as int + 1,
                toks@.len() as int,
            ))),
        ensures
            pos < cur <= toks@.len(),
            exp_rep(v, pos as int, cur as int, exp_view(left), 4),
            flat_exp(v, pos as int, toks@.len() as int) ==> (cur == toks@.len() || (
            is_binop_token(v[cur as int]) && op_level(v[cur as int]) < 4 && flat_exp(
                v,
                cur as int + 1,
                toks@.len() as int,
            ))),
        decreases toks@.len() - cur,
    {
        if cur >= toks.len() {
            break;
        }
        let op = match &toks[cur] {
            Token::Plus => Operation::Add,
            Token::Minus => Operation::Subtract,
            _ => {
                proof {
                    assert(v[cur as int] == toks@[cur as int]@);
                }
                break;
            },
        };
        let ghost old_left = exp_view(left);
        let ghost kk = cur as int;
        proof {
            assert(v[kk] == toks@[kk]@);
            assert(level_op(4, v[kk]) == Some(op));
        }
        let (right, p2) = match parse_multiplicative(toks, cur + 1, expected, tables) {
            Ok(p) => p,
            Err(e) => {
                return Err(e);
            },
        };
        let ghost rv = exp_view(right);
        left = Exp::Op(op, Box::new(left), Box::new(right));
        proof {
            assert(exp_view(left) == ExpV::Op(op, Box::new(old_left), Box::new(rv)));
            assert(exp_rep(v, kk + 1, p2 as int, rv, 5));
            assert(exp_rep(v, pos as int, p2 as int, exp_view(left), 4));
        }
        cur = p2;
    }
    Ok((left, cur))
}

/// The `*` / `/` / `%` level.
/// A successful result is a parse of exactly the consumed tokens at this
/// precedence level, per `exp_rep`.
#[verifier::rlimit(50)]
fn parse_multiplicative(toks: &Vec<Token>, pos: usize, expected: Option<&Type>, tables: &ParserTables) -> (r:
    Result<(Exp, usize), SyntaxError>)
    requires
        pos <= toks@.len(),
    ensures
        match r {
            Ok(p) => pos < p.1 <= toks@.len() && exp_rep(
                toks.deep_view(),
                pos as int,
                p.1 as int,
                exp_view(p.0),
                5,
            ),
            Err(_) => true,
        },
        flat_exp(toks.deep_view(), pos as int, toks@.len() as int) ==> match r {
            Ok(p) => p.1 == toks@.len() || (is_binop_token(toks.deep_view()[p.1 as int])
                && op_level(toks.deep_view()[p.1 as int]) < 5 && flat_exp(
                toks.deep_view(),
                p.1 as int + 1,
                toks@.len() as int,
            )),
            Err(_) => false,
        },
    decreases toks@.len() - pos, 4int,
{
    let ghost v = toks.deep_view();
    let (first, p1) = match parse_unary(toks, pos, expected, tables) {
        Ok(p) => p,
        Err(e) => {
            return Err(e);
        },
    };
    proof {
        assert(exp_rep(v, pos as int, p1 as int, exp_view(first), 5));
    }
    let mut left = first;
    let mut cur = p1;
    loop
        invariant
            pos < cur <= toks@.len(),
            v == toks.deep_view(),
            exp_rep(v, pos as int, cur as int, exp_view(left), 5),
            flat_exp(v, pos as int, toks@.len() as int) ==> (cur == toks@.len() || (
            is_binop_token(v[cur as int]) && op_level(v[cur as int]) < 6 && flat_exp(
                v,
                cur as int + 1,
                toks@.len() as int,
            ))),
        ensures
            pos < cur <= toks@.len(),
            exp_rep(v, pos as int, cur as int, exp_view(left), 5),
            flat_exp(v, pos as int, toks@.len() as int) ==> (cur == toks@.len() || (
            is_binop_token(v[cur as int]) && op_level(v[cur as int]) < 5 && flat_exp(
                v,
                cur as int + 1,
                toks@.len() as int,
            ))),
        decreases toks@.len() - cur,
    {
        if cur >= toks.len() {
            break;
        }
        let op = match &toks[cur] {
            Token::Multiply => Operation::Multiply,
            Token::Divide => Operation::Divide,
            Token::Modulo => Operation::Modulo,
            _ => {
                proof {
                    assert(v[cur as int] == toks@[cur as int]@);
                }
                break;
            },
        };
        let ghost old_left = exp_view(left);
        let ghost kk = cur as int;
        proof {
            assert(v[kk] == toks@[kk]@);
            assert(level_op(5, v[kk]) == Some(op));
        }
        let (right, p2) = match parse_unary(toks, cur + 1, expected, tables) {
            Ok(p) => p,
            Err(e) => {
                return Err(e);
            },
        };
        let ghost rv = exp_view(right);
        left = Exp::Op(op, Box::new(left), Box::new(right));
        proof {
            assert(exp_view(left) == ExpV::Op(op, Box::new(old_left), Box::new(rv)));
            assert(exp_rep(v, kk + 1, p2 as int, rv, 6));
            assert(exp_rep(v, pos as int, p2 as int, exp_view(left), 5));
        }
        cur = p2;
    }
    Ok((left, cur))
}

/// The prefix `-` and `!` level.
#[verifier::rlimit(50)]
fn parse_unary(toks: &Vec<Token>, pos: usize, expected: Option<&Type>, tables: &ParserTables)
    -> (r: Result<(Exp, usize), SyntaxError>)
    requires
        pos <= toks@.len(),
    ensures
        match r {
            Ok(p) => pos < p.1 <= toks@.len() && exp_rep(
                toks.deep_view(),
                pos as int,
                p.1 as int,
                exp_view(p.0),
                6,
            ),
            Err(_) => true,
        },
        flat_exp(toks.deep_view(), pos as int, toks@.len() as int) ==> match r {
            Ok(p) => p.1 == toks@.len() || (is_binop_token(toks.deep_view()[p.1 as int])
                && op_level(toks.deep_view()[p.1 as int]) < 6 && flat_exp(
                toks.deep_view(),
                p.1 as int + 1,
                toks@.len() as int,
            )),
            Err(_) => false,
        },
    decreases toks@.len() - pos, 3int,
{
    let ghost v = toks.deep_view();
    if pos >= toks.len() {
        return Err(SyntaxError { position: pos, expected: Expected::Expression });
    }
    proof {
        assert(v[pos as int] == toks@[pos as int]@);
    }
    match &toks[pos] {
        Token::Minus => {
            let (inner, p1) = match parse_unary(toks, pos + 1, expected, tables) {
                Ok(p) => p,
                Err(e) => {
                    return Err(e);
                },
            };
            let ghost iv = exp_view(inner);
            let e = Exp::Negate(Box::new(inner));
            proof {
                assert(exp_view(e) == ExpV::Negate(Box::new(iv)));
                assert(exp_rep(v, pos as int, p1 as int, exp_view(e), 6));
            }
            Ok((e, p1))
        },
        Token::Not => {
            let (inner, p1) = match parse_unary(toks, pos + 1, expected, tables) {
                Ok(p) => p,
                Err(e) => {
                    return Err(e);
                },
            };
            let ghost iv = exp_view(inner);
            let e = Exp::Not(Box::new(inner));
            proof {
                assert(exp_view(e) == ExpV::Not(Box::new(iv)));
                assert(exp_rep(v, pos as int, p1 as int, exp_view(e), 6));
            }
            Ok((e, p1))
        },
        _ => match parse_primary(toks, pos, expected, tables) {
            Ok((e, p1)) => {
                proof {
                    assert(exp_rep(v, pos as int, p1 as int, exp_view(e), 6));
                }
                Ok((e, p1))
            },
            Err(e) => Err(e),
        },
    }
}

/// Parses the arguments of a call after its opening parenthesis, tolerating
/// a trailing comma; the declared parameter types, when known, give each
/// argument its expected type and fix the argument count.  A successful
/// result's arguments partition the consumed tokens, per `exps_rep`.
#[verifier::rlimit(80)]
#[verifier::loop_isolation(false)]
fn parse_call_args(
    toks: &Vec<Token>,
    pos: usize,
    params: Option<&Vec<Type>>,
    tables: &ParserTables,
) -> (r: Result<(Vec<Exp>, usize), SyntaxError>)
    requires
        pos <= toks@.len(),
    ensures
        match r {
            Ok(p) => {
                &&& pos < p.1 <= toks@.len()
                &&& toks.deep_view()[p.1 - 1] == TokenV::RightParen
                &&& exps_rep(toks.deep_view(), pos as int, p.1 - 1, exp_view_seq(p.0@))
            },
            Err(_) => true,
        },
    decreases toks@.len() - pos, 10int,
{
    let ghost v = toks.deep_view();
    let mut args: Vec<Exp> = Vec::new();
    let ghost mut esviews: Seq<ExpV> = Seq::empty();
    let mut cur = pos;
    loop
        invariant
            pos <= cur <= toks@.len(),
            exps_comma_rep(v, pos as int, cur as int, esviews),
            esviews.len() == args@.len(),
            forall|q: int| 0 <= q < args@.len() ==> esviews[q] == exp_view(#[trigger] args@[q]),
        decreases toks@.len() - cur,
    {
        if cur >= toks.len() {
            return Err(SyntaxError { position: cur, expected: Expected::ClosingParen });
        }
        match &toks[cur] {
            Token::RightParen => {
                match params {
                    Some(ps) => if args.len() != ps.len() {
                        return Err(SyntaxError {
                            position: pos,
                            expected: Expected::ArgumentCount,
                        });
                    },
                    None => {},
                }
                proof {
                    assert(v[cur as int] == toks@[cur as int]@);
                    lemma_exps_comma_to_rep(v, pos as int, cur as int, esviews);
                    lemma_exp_view_seq(args@);
                    assert(exp_view_seq(args@) =~= esviews);
                }
                return Ok((args, cur + 1));
            },
            _ => {},
        }
        let hint: Option<&Type> = match params {
            Some(ps) => if args.len() < ps.len() {
                Some(&ps[args.len()])
            } else {
                None
            },
            None => None,
        };
        let ghost st = cur as int;
        let (arg, p1) = match parse_exp(toks, cur, hint, tables) {
            Ok(p) => p,
            Err(e) => {
                return Err(e);
            },
        };
        let ghost av = exp_view(arg);
        args.push(arg);
        cur = p1;
        if cur >= toks.len() {
            return Err(SyntaxError { position: cur, expected: Expected::ClosingParen });
        }
        match &toks[cur] {
            Token::Comma => {
                proof {
                    assert(v[cur as int] == toks@[cur as int]@);
                    lemma_exps_comma_snoc(v, pos as int, st, cur as int, esviews, av);
                    esviews = esviews.push(av);
                }
                cur = cur + 1;
            },
            Token::RightParen => {
                match params {
                    Some(ps) => if args.len() != ps.len() {
                        return Err(SyntaxError {
                            position: pos,
                            expected: Expected::ArgumentCount,
                        });
                    },
                    None => {},
                }
                proof {
                    assert(v[cur as int] == toks@[cur as int]@);
                    lemma_exps_comma_final(v, pos as int, st, cur as int, esviews, av);
                    esviews = esviews.push(av);
                    lemma_exp_view_seq(args@);
                    assert(exp_view_seq(args@) =~= esviews);
                }
                return Ok((args, cur + 1));
            },
            _ => {
                return Err(SyntaxError { position: cur, expected: Expected::ClosingParen });
            },
        }
    }
}

/// The primary level: literals, identifiers and calls, parenthesized
/// expressions, and the structural literals, which `{`, `[` and `(` open
/// only under a type-implying context.
#[verifier::rlimit(100)]
#[verifier::loop_isolation(false)]
fn parse_primary(toks: &Vec<Token>, pos: usize, expected: Option<&Type>, tables: &ParserTables)
    -> (r: Result<(Exp, usize), SyntaxError>)
    requires
        pos <= toks@.len(),
    ensures
        match r {
            Ok(p) => pos < p.1 <= toks@.len() && exp_rep(
                toks.deep_view(),
                pos as int,
                p.1 as int,
                exp_view(p.0),
                7,
            ),
            Err(_) => true,
        },
        flat_exp(toks.deep_view(), pos as int, toks@.len() as int) && is_atom_token(
            toks.deep_view()[pos as int],
        ) ==> match r {
            Ok(p) => p.1 == toks@.len() || (is_binop_token(toks.deep_view()[p.1 as int])
                && op_level(toks.deep_view()[p.1 as int]) < 7 && flat_exp(
                toks.deep_view(),
                p.1 as int + 1,
                toks@.len() as int,
            )),
            Err(_) => false,
        },
    decreases toks@.len() - pos, 2int,
{
    let ghost v = toks.deep_view();
    if pos >= toks.len() {
        return Err(SyntaxError { position: pos, expected: Expected::Expression });
    }
    proof {
        assert(v[pos as int] == toks@[pos as int]@);
    }
    match &toks[pos] {
        Token::Int(n) => {
            let e = Exp::Int(*n);
            proof {
                assert(exp_rep(v, pos as int, pos as int + 1, exp_view(e), 7));
            }
            Ok((e, pos + 1))
        },
        Token::Str(text) => {
            let e = Exp::Str(text.clone());
            proof {
                assert(exp_rep(v, pos as int, pos as int + 1, exp_view(e), 7));
            }
            Ok((e, pos + 1))
        },
        Token::Bool(b) => {
            let e = Exp::Bool(*b);
            proof {
                assert(exp_rep(v, pos as int, pos as int + 1, exp_view(e), 7));
            }
            Ok((e, pos + 1))
        },
        Token::Var(name) => {
            let is_call = if pos + 1 < toks.len() {
                match &toks[pos + 1] {
                    Token::LeftParen => true,
                    _ => false,
                }
            } else {
                false
            };
            if is_call {
                let params = func_hint(tables, name);
                let (call_args, p1) = match parse_call_args(
                    toks,
                    pos + 2,
                    params.as_ref(),
                    tables,
                ) {
                    Ok(p) => p,
                    Err(e) => {
                        return Err(e);
                    },
                };
                let e = Exp::Call(name.clone(), call_args);
                proof {
                    assert(v[pos as int + 1] == toks@[pos as int + 1]@);
                    assert(exp_rep(v, pos as int, p1 as int, exp_view(e), 7));
                }
                Ok((e, p1))
            } else {
                let e = Exp::Var(name.clone());
                proof {
                    assert(exp_rep(v, pos as int, pos as int + 1, exp_view(e), 7));
                }
                Ok((e, pos + 1))
            }
        },
        Token::LeftParen => {
            // a higher-order-function literal under a function-type context:
            // `( name ) { return exp ; }`
            let hof_io: Option<(&Type, &Type)> = match expected {
                Some(t) => match t {
                    Type::HigherOrderFunction(i, o) => Some((&**i, &**o)),
                    _ => None,
                },
                None => None,
            };
            let is_hof = if toks.len() > 3 && pos < toks.len() - 3 && hof_io.is_some() {
                let a = match &toks[pos + 1] {
                    Token::Var(_) => true,
                    _ => false,
                };
                let b = match &toks[pos + 2] {
                    Token::RightParen => true,
                    _ => false,
                };
                let c = match &toks[pos + 3] {
                    Token::LeftCurly => true,
                    _ => false,
                };
                a && b && c
            } else {
                false
            };
            if is_hof {
                let (input_t, output_t) = match hof_io {
                    Some(p) => p,
                    None => {
                        return Err(SyntaxError { position: pos, expected: Expected::Expression });
                    },
                };
                let pname = match &toks[pos + 1] {
                    Token::Var(n) => n.clone(),
                    _ => {
                        return Err(SyntaxError {
                            position: pos + 1,
                            expected: Expected::Identifier,
                        });
                    },
                };
                if pos + 4 >= toks.len() {
                    return Err(SyntaxError { position: pos + 4, expected: Expected::ReturnKeyword });
                }
                match &toks[pos + 4] {
                    Token::Return => {},
                    _ => {
                        return Err(SyntaxError {
                            position: pos + 4,
                            expected: Expected::ReturnKeyword,
                        });
                    },
                }
                let (body, p1) = match parse_exp(toks, pos + 5, Some(output_t), tables) {
                    Ok(p) => p,
                    Err(e) => {
                        return Err(e);
                    },
                };
                if p1 >= toks.len() {
                    return Err(SyntaxError { position: p1, expected: Expected::Semicolon });
                }
                match &toks[p1] {
                    Token::Semicolon => {},
                    _ => {
                        return Err(SyntaxError { position: p1, expected: Expected::Semicolon });
                    },
                }
                if p1 + 1 >= toks.len() {
                    return Err(SyntaxError { position: p1 + 1, expected: Expected::ClosingCurly });
                }
                match &toks[p1 + 1] {
                    Token::RightCurly => {},
                    _ => {
                        return Err(SyntaxError {
                            position: p1 + 1,
                            expected: Expected::ClosingCurly,
                        });
                    },
                }
                let param = Var { name: pname, var_type: input_t.clone(), value: None };
                let ghost bv = exp_view(body);
                let e = Exp::HOF(Box::new(param), Box::new(body));
                proof {
                    assert(v[pos as int + 1] == toks@[pos as int + 1]@);
                    assert(v[pos as int + 2] == toks@[pos as int + 2]@);
                    assert(v[pos as int + 3] == toks@[pos as int + 3]@);
                    assert(v[pos as int + 4] == toks@[pos as int + 4]@);
                    assert(v[p1 as int] == toks@[p1 as int]@);
                    assert(v[p1 as int + 1] == toks@[p1 as int + 1]@);
                    assert(exp_rep(v, pos as int + 5, p1 as int, bv, 0));
                    assert(exp_view(e) == ExpV::HOF(
                        Box::new(var_view(param)),
                        Box::new(bv),
                    ));
                    assert(exp_rep(v, pos as int, p1 as int + 2, exp_view(e), 7));
                }
                Ok((e, p1 + 2))
            } else {
                let (inner, p1) = match parse_exp(toks, pos + 1, expected, tables) {
                    Ok(p) => p,
                    Err(e) => {
                        return Err(e);
                    },
                };
                if p1 >= toks.len() {
                    return Err(SyntaxError { position: p1, expected: Expected::ClosingParen });
                }
                match &toks[p1] {
                    Token::RightParen => {
                        proof {
                            assert(v[p1 as int] == toks@[p1 as int]@);
                            assert(exp_rep(v, pos as int, p1 as int + 1, exp_view(inner), 7));
                        }
                        Ok((inner, p1 + 1))
                    },
                    _ => Err(SyntaxError { position: p1, expected: Expected::ClosingParen }),
                }
            }
        },
        Token::LeftCurly => {
            // a struct literal, readable only under a struct-type context
            let sname = match expected {
                Some(t) => match t {
                    Type::Struct(n) => n.clone(),
                    _ => {
                        return Err(SyntaxError { position: pos, expected: Expected::Expression });
                    },
                },
                None => {
                    return Err(SyntaxError { position: pos, expected: Expected::Expression });
                },
            };
            let mut fields: Vec<(String, Exp)> = Vec::new();
            let ghost mut fviews: Seq<(Seq<char>, ExpV)> = Seq::empty();
            let mut cur = pos + 1;
            loop
                invariant
                    pos < cur <= toks@.len(),
                    fields_comma_rep(v, pos as int + 1, cur as int, fviews),
                    fviews.len() == fields@.len(),
                    forall|q: int|
                        0 <= q < fields@.len() ==> fviews[q] == (
                            #[trigger] fields@[q].0@,
                            exp_view(fields@[q].1),
                        ),
                decreases toks@.len() - cur,
            {
                if cur >= toks.len() {
                    return Err(SyntaxError { position: cur, expected: Expected::ClosingCurly });
                }
                match &toks[cur] {
                    Token::RightCurly => {
                        let e = Exp::Struct(sname, fields);
                        proof {
                            assert(v[cur as int] == toks@[cur as int]@);
                            lemma_fields_comma_to_rep(v, pos as int + 1, cur as int, fviews);
                            lemma_field_view_seq(e->Struct_1@);
                            assert(field_view_seq(e->Struct_1@) =~= fviews);
                            assert(exp_rep(v, pos as int, cur as int + 1, exp_view(e), 7));
                        }
                        return Ok((e, cur + 1));
                    },
                    _ => {},
                }
                let ghost st = cur as int;
                let fname = match &toks[cur] {
                    Token::Var(n) => n.clone(),
                    _ => {
                        return Err(SyntaxError { position: cur, expected: Expected::FieldName });
                    },
                };
                if cur + 1 >= toks.len() {
                    return Err(SyntaxError { position: cur + 1, expected: Expected::Colon });
                }
                match &toks[cur + 1] {
                    Token::Colon => {},
                    _ => {
                        return Err(SyntaxError { position: cur + 1, expected: Expected::Colon });
                    },
                }
                let hint = field_hint(tables, &sname, &fname);
                let (value, p1) = match parse_exp(toks, cur + 2, hint.as_ref(), tables) {
                    Ok(p) => p,
                    Err(e) => {
                        return Err(e);
                    },
                };
                let ghost fv = (fname@, exp_view(value));
                proof {
                    assert(v[st] == toks@[st]@);
                    assert(v[st + 1] == toks@[st + 1]@);
                }
                fields.push((fname, value));
                cur = p1;
                if cur >= toks.len() {
                    return Err(SyntaxError { position: cur, expected: Expected::ClosingCurly });
                }
                match &toks[cur] {
                    Token::Comma => {
                        proof {
                            assert(v[cur as int] == toks@[cur as int]@);
                            lemma_fields_comma_snoc(
                                v,
                                pos as int + 1,
                                st,
                                cur as int,
                                fviews,
                                fv,
                            );
                            fviews = fviews.push(fv);
                        }
                        cur = cur + 1;
                    },
                    Token::RightCurly => {
                        let e = Exp::Struct(sname, fields);
                        proof {
                            assert(v[cur as int] == toks@[cur as int]@);
                            lemma_fields_comma_final(
                                v,
                                pos as int + 1,
                                st,
                                cur as int,
                                fviews,
                                fv,
                            );
                            fviews = fviews.push(fv);
                            lemma_field_view_seq(e->Struct_1@);
                            assert(field_view_seq(e->Struct_1@) =~= fviews);
                            assert(exp_rep(v, pos as int, cur as int + 1, exp_view(e), 7));
                        }
                        return Ok((e, cur + 1));
                    },
                    _ => {
                        return Err(SyntaxError { position: cur, expected: Expected::ClosingCurly });
                    },
                }
            }
        },
        Token::LeftBrace => {
            // a list literal: `[t] [items]` with its element type written
            // out, or `[items]` under a list-type context
            let explicit: Option<Type> = if toks.len() > 3 && pos < toks.len() - 3 {
                let elem: Option<Type> = match &toks[pos + 1] {
                    Token::TypeName(t) => Some(t.clone()),
                    Token::Var(n) => Some(Type::Struct(n.clone())),
                    _ => None,
                };
                let closed = match &toks[pos + 2] {
                    Token::RightBrace => true,
                    _ => false,
                };
                let reopened = match &toks[pos + 3] {
                    Token::LeftBrace => true,
                    _ => false,
                };
                if closed && reopened {
                    elem
                } else {
                    None
                }
            } else {
                None
            };
            let (elem, start) = match explicit {
                Some(t) => (t, pos + 4),
                None => {
                    let elem = match expected {
                        Some(t) => match crate::type_checker::elem_type(t) {
                            Some(et) => et,
                            None => {
                                return Err(SyntaxError {
                                    position: pos,
                                    expected: Expected::Expression,
                                });
                            },
                        },
                        None => {
                            return Err(SyntaxError {
                                position: pos,
                                expected: Expected::Expression,
                            });
                        },
                    };
                    (elem, pos + 1)
                },
            };
            let mut cur = start;
            let mut items: Vec<Exp> = Vec::new();
            let ghost mut iviews: Seq<ExpV> = Seq::empty();
            proof {
                assert(v[pos as int] == toks@[pos as int]@);
            }
            loop
                invariant
                    pos < cur <= toks@.len(),
                    exps_comma_rep(v, start as int, cur as int, iviews),
                    iviews.len() == items@.len(),
                    forall|q: int|
                        0 <= q < items@.len() ==> iviews[q] == exp_view(#[trigger] items@[q]),
                decreases toks@.len() - cur,
            {
                if cur >= toks.len() {
                    return Err(SyntaxError { position: cur, expected: Expected::ClosingBrace });
                }
                match &toks[cur] {
                    Token::RightBrace => {
                        let e = Exp::List(elem, items);
                        proof {
                            assert(v[cur as int] == toks@[cur as int]@);
                            lemma_exps_comma_to_rep(v, start as int, cur as int, iviews);
                            lemma_exp_view_seq(e->List_1@);
                            assert(exp_view_seq(e->List_1@) =~= iviews);
                            assert(exp_rep(v, pos as int, cur as int + 1, exp_view(e), 7));
                        }
                        return Ok((e, cur + 1));
                    },
                    _ => {},
                }
                let ghost st = cur as int;
                let (item, p1) = match parse_exp(toks, cur, Some(&elem), tables) {
                    Ok(p) => p,
                    Err(e) => {
                        return Err(e);
                    },
                };
                let ghost iv2 = exp_view(item);
                items.push(item);
                cur = p1;
                if cur >= toks.len() {
                    return Err(SyntaxError { position: cur, expected: Expected::ClosingBrace });
                }
                match &toks[cur] {
                    Token::Comma => {
                        proof {
                            assert(v[cur as int] == toks@[cur as int]@);
                            lemma_exps_comma_snoc(v, start as int, st, cur as int, iviews, iv2);
                            iviews = iviews.push(iv2);
                        }
                        cur = cur + 1;
                    },
                    Token::RightBrace => {
                        let e = Exp::List(elem, items);
                        proof {
                            assert(v[cur as int] == toks@[cur as int]@);
                            lemma_exps_comma_final(v, start as int, st, cur as int, iviews, iv2);
                            iviews = iviews.push(iv2);
                            lemma_exp_view_seq(e->List_1@);
                            assert(exp_view_seq(e->List_1@) =~= iviews);
                            assert(exp_rep(v, pos as int, cur as int + 1, exp_view(e), 7));
                        }
                        return Ok((e, cur + 1));
                    },
                    _ => {
                        return Err(SyntaxError { position: cur, expected: Expected::ClosingBrace });
                    },
                }
            }
        },
        _ => Err(SyntaxError { position: pos, expected: Expected::Expression }),
    }
}

// ---------------------------------------------------------------------------
// Statements
// ---------------------------------------------------------------------------

/// Parses a brace-delimited block of statements, starting at its `{`.
/// `ret` is the declared output type of the enclosing function, the expected
/// type of any `return` expression inside.
#[verifier::loop_isolation(false)]
fn parse_block(toks: &Vec<Token>, pos: usize, ret: Option<&Type>, tables: &mut ParserTables) -> (r:
    Result<(Vec<Statement>, usize), SyntaxError>)
    requires
        pos <= toks@.len(),
    ensures
        match r {
            Ok(p) => {
                &&& pos < p.1 <= toks@.len()
                &&& p.1 >= pos + 2
                &&& block_rep(toks.deep_view(), pos as int, p.1 as int, stmt_view_seq(p.0@))
            },
            Err(_) => true,
        },
    decreases toks@.len() - pos, 12int,
{
    let ghost v = toks.deep_view();
    if pos >= toks.len() {
        return Err(SyntaxError { position: pos, expected: Expected::OpeningCurly });
    }
    proof {
        assert(v[pos as int] == toks@[pos as int]@);
    }
    match &toks[pos] {
        Token::LeftCurly => {},
        _ => {
            return Err(SyntaxError { position: pos, expected: Expected::OpeningCurly });
        },
    }
    let mut stmts: Vec<Statement> = Vec::new();
    let ghost mut sviews: Seq<StmtV> = Seq::empty();
    let mut cur = pos + 1;
    loop
        invariant
            pos < cur <= toks@.len(),
            stmts_rep(v, pos as int + 1, cur as int, sviews),
            sviews.len() == stmts@.len(),
            forall|q: int| 0 <= q < stmts@.len() ==> sviews[q] == stmt_view(#[trigger] stmts@[q]),
        decreases toks@.len() - cur,
    {
        if cur >= toks.len() {
            return Err(SyntaxError { position: cur, expected: Expected::ClosingCurly });
        }
        match &toks[cur] {
            Token::RightCurly => {
                proof {
                    assert(v[cur as int] == toks@[cur as int]@);
                    lemma_stmt_view_seq(stmts@);
                    assert(sviews =~= stmt_view_seq(stmts@));
                    assert(block_rep(v, pos as int, cur as int + 1, stmt_view_seq(stmts@)));
                }
                return Ok((stmts, cur + 1));
            },
            _ => {},
        }
        let (st, p1) = match parse_stmt(toks, cur, ret, tables) {
            Ok(p) => p,
            Err(e) => {
                return Err(e);
            },
        };
        let ghost sv = stmt_view(st);
        proof {
            lemma_stmt_rep_closer(v, cur as int, p1 as int, sv);
            lemma_stmts_rep_snoc(v, pos as int + 1, cur as int, p1 as int, sviews, sv);
            sviews = sviews.push(sv);
        }
        stmts.push(st);
        cur = p1;
    }
}

/// Parses a function definition's parameter list after its opening
/// parenthesis, tolerating a trailing comma: the bindings, their types, and
/// the position just past the closing parenthesis.  A successful result's
/// bindings partition the consumed tokens, per `bindings_rep`.
#[verifier::rlimit(80)]
#[verifier::loop_isolation(false)]
fn parse_params(toks: &Vec<Token>, pos: usize) -> (r: Result<
    (Vec<Var>, Vec<Type>, usize),
    SyntaxError,
>)
    requires
        pos <= toks@.len(),
    ensures
        match r {
            Ok(p) => {
                &&& pos < p.2 <= toks@.len()
                &&& toks.deep_view()[p.2 - 1] == TokenV::RightParen
                &&& bindings_rep(toks.deep_view(), pos as int, p.2 - 1, var_view_seq(p.0@))
            },
            Err(_) => true,
        },
    decreases toks@.len() - pos,
{
    let ghost v = toks.deep_view();
    let mut params: Vec<Var> = Vec::new();
    let mut param_types: Vec<Type> = Vec::new();
    let ghost mut bviews: Seq<VarV> = Seq::empty();
    let mut cur = pos;
    loop
        invariant
            pos <= cur <= toks@.len(),
            bindings_comma_rep(v, pos as int, cur as int, bviews),
            bviews.len() == params@.len(),
            forall|q: int|
                0 <= q < params@.len() ==> bviews[q] == var_view(#[trigger] params@[q]),
        decreases toks@.len() - cur,
    {
        if cur >= toks.len() {
            return Err(SyntaxError { position: cur, expected: Expected::ClosingParen });
        }
        match &toks[cur] {
            Token::RightParen => {
                proof {
                    assert(v[cur as int] == toks@[cur as int]@);
                    lemma_bindings_comma_to_rep(v, pos as int, cur as int, bviews);
                    lemma_var_view_seq(params@);
                    assert(var_view_seq(params@) =~= bviews);
                }
                return Ok((params, param_types, cur + 1));
            },
            _ => {},
        }
        let ghost st = cur as int;
        let pname = match &toks[cur] {
            Token::Var(n) => n.clone(),
            _ => {
                return Err(SyntaxError { position: cur, expected: Expected::Identifier });
            },
        };
        if cur + 1 >= toks.len() {
            return Err(SyntaxError { position: cur + 1, expected: Expected::Colon });
        }
        match &toks[cur + 1] {
            Token::Colon => {},
            _ => {
                return Err(SyntaxError { position: cur + 1, expected: Expected::Colon });
            },
        }
        let (pt, p1) = match parse_type(toks, cur + 2) {
            Ok(p) => p,
            Err(e) => {
                return Err(e);
            },
        };
        param_types.push(pt.clone());
        let binding = Var { name: pname, var_type: pt, value: None };
        let ghost bv = var_view(binding);
        proof {
            assert(v[st] == toks@[st]@);
            assert(v[st + 1] == toks@[st + 1]@);
        }
        params.push(binding);
        cur = p1;
        if cur >= toks.len() {
            return Err(SyntaxError { position: cur, expected: Expected::ClosingParen });
        }
        match &toks[cur] {
            Token::Comma => {
                proof {
                    assert(v[cur as int] == toks@[cur as int]@);
                    lemma_bindings_comma_snoc(v, pos as int, st, cur as int, bviews, bv);
                    bviews = bviews.push(bv);
                }
                cur = cur + 1;
            },
            Token::RightParen => {
                proof {
                    assert(v[cur as int] == toks@[cur as int]@);
                    lemma_bindings_comma_final(v, pos as int, st, cur as int, bviews, bv);
                    bviews = bviews.push(bv);
                    lemma_var_view_seq(params@);
                    assert(var_view_seq(params@) =~= bviews);
                }
                return Ok((params, param_types, cur + 1));
            },
            _ => {
                return Err(SyntaxError { position: cur, expected: Expected::ClosingParen });
            },
        }
    }
}

/// Parses one statement: `let`, `func`, `struct`, `return`, `if`, `for` or
/// `while`.
/// A successful result spans exactly the consumed tokens per `stmt_rep`.
#[verifier::rlimit(100)]
#[verifier::loop_isolation(false)]
fn parse_stmt(toks: &Vec<Token>, pos: usize, ret: Option<&Type>, tables: &mut ParserTables) -> (r:
    Result<(Statement, usize), SyntaxError>)
    requires
        pos <= toks@.len(),
    ensures
        match r {
            Ok(p) => pos < p.1 <= toks@.len() && stmt_rep(
                toks.deep_view(),
                pos as int,
                p.1 as int,
                stmt_view(p.0),
            ),
            Err(_) => true,
        },
    decreases toks@.len() - pos, 11int,
{
    let ghost v = toks.deep_view();
    if pos >= toks.len() {
        return Err(SyntaxError { position: pos, expected: Expected::Statement });
    }
    proof {
        assert(v[pos as int] == toks@[pos as int]@);
    }
    match &toks[pos] {
        Token::Let => {
            // let name : type = exp ;
            if pos + 1 >= toks.len() {
                return Err(SyntaxError { position: pos + 1, expected: Expected::Identifier });
            }
            let name = match &toks[pos + 1] {
                Token::Var(n) => n.clone(),
                _ => {
                    return Err(SyntaxError { position: pos + 1, expected: Expected::Identifier });
                },
            };
            if pos + 2 >= toks.len() {
                return Err(SyntaxError { position: pos + 2, expected: Expected::Colon });
            }
            match &toks[pos + 2] {
                Token::Colon => {},
                _ => {
                    return Err(SyntaxError { position: pos + 2, expected: Expected::Colon });
                },
            }
            let (t, p1) = match parse_type(toks, pos + 3) {
                Ok(p) => p,
                Err(e) => {
                    return Err(e);
                },
            };
            if p1 >= toks.len() {
                return Err(SyntaxError { position: p1, expected: Expected::Assign });
            }
            match &toks[p1] {
                Token::Assign => {},
                _ => {
                    return Err(SyntaxError { position: p1, expected: Expected::Assign });
                },
            }
            let (e, p2) = match parse_exp(toks, p1 + 1, Some(&t), &*tables) {
                Ok(p) => p,
                Err(e) => {
                    return Err(e);
                },
            };
            if p2 >= toks.len() {
                return Err(SyntaxError { position: p2, expected: Expected::Semicolon });
            }
            match &toks[p2] {
                Token::Semicolon => {},
                _ => {
                    return Err(SyntaxError { position: p2, expected: Expected::Semicolon });
                },
            }
            let binding = Var { name, var_type: t, value: None };
            let ghost ev = exp_view(e);
            let stmt = Statement::Assignment(binding, e);
            proof {
                assert(v[pos as int + 1] == toks@[pos as int + 1]@);
                assert(v[pos as int + 2] == toks@[pos as int + 2]@);
                assert(v[p1 as int] == toks@[p1 as int]@);
                assert(v[p2 as int] == toks@[p2 as int]@);
                assert(v[p1 as int] == TokenV::Assign);
                assert(type_rep(v, pos as int + 3, p1 as int, stmt_view(stmt)->Assignment_0.var_type));
                assert(exp_rep(v, p1 as int + 1, p2 as int, ev, 0));
                assert(stmt_rep(v, pos as int, p2 as int + 1, stmt_view(stmt)));
            }
            Ok((stmt, p2 + 1))
        },
        Token::Struct => {
            // struct Name { field : type , ... }
            if pos + 1 >= toks.len() {
                return Err(SyntaxError { position: pos + 1, expected: Expected::Identifier });
            }
            let name = match &toks[pos + 1] {
                Token::Var(n) => n.clone(),
                _ => {
                    return Err(SyntaxError { position: pos + 1, expected: Expected::Identifier });
                },
            };
            if pos + 2 >= toks.len() {
                return Err(SyntaxError { position: pos + 2, expected: Expected::OpeningCurly });
            }
            match &toks[pos + 2] {
                Token::LeftCurly => {},
                _ => {
                    return Err(SyntaxError { position: pos + 2, expected: Expected::OpeningCurly });
                },
            }
            let mut fields: Vec<Var> = Vec::new();
            let mut entry_fields: Vec<(String, Type)> = Vec::new();
            let ghost mut bviews: Seq<VarV> = Seq::empty();
            let mut cur = pos + 3;
            loop
                invariant
                    pos + 2 < cur <= toks@.len(),
                    bindings_comma_rep(v, pos as int + 3, cur as int, bviews),
                    bviews.len() == fields@.len(),
                    forall|q: int|
                        0 <= q < fields@.len() ==> bviews[q] == var_view(#[trigger] fields@[q]),
                decreases toks@.len() - cur,
            {
                if cur >= toks.len() {
                    return Err(SyntaxError { position: cur, expected: Expected::ClosingCurly });
                }
                match &toks[cur] {
                    Token::RightCurly => {
                        tables.structs.push(
                            StructEntry { name: name.clone(), fields: entry_fields },
                        );
                        let stmt = Statement::StructDef(StructDef { name, fields });
                        proof {
                            assert(v[pos as int + 1] == toks@[pos as int + 1]@);
                            assert(v[pos as int + 2] == toks@[pos as int + 2]@);
                            assert(v[cur as int] == toks@[cur as int]@);
                            lemma_bindings_comma_to_rep(v, pos as int + 3, cur as int, bviews);
                            lemma_var_view_seq(stmt->StructDef_0.fields@);
                            assert(var_view_seq(stmt->StructDef_0.fields@) =~= bviews);
                            assert(stmt_rep(v, pos as int, cur as int + 1, stmt_view(stmt)));
                        }
                        return Ok((stmt, cur + 1));
                    },
                    _ => {},
                }
                let ghost st = cur as int;
                let fname = match &toks[cur] {
                    Token::Var(n) => n.clone(),
                    _ => {
                        return Err(SyntaxError { position: cur, expected: Expected::FieldName });
                    },
                };
                if cur + 1 >= toks.len() {
                    return Err(SyntaxError { position: cur + 1, expected: Expected::Colon });
                }
                match &toks[cur + 1] {
                    Token::Colon => {},
                    _ => {
                        return Err(SyntaxError { position: cur + 1, expected: Expected::Colon });
                    },
                }
                let (ft, p1) = match parse_type(toks, cur + 2) {
                    Ok(p) => p,
                    Err(e) => {
                        return Err(e);
                    },
                };
                entry_fields.push((fname.clone(), ft.clone()));
                let binding = Var { name: fname, var_type: ft, value: None };
                let ghost bv = var_view(binding);
                proof {
                    assert(v[st] == toks@[st]@);
                    assert(v[st + 1] == toks@[st + 1]@);
                }
                fields.push(binding);
                cur = p1;
                if cur >= toks.len() {
                    return Err(SyntaxError { position: cur, expected: Expected::ClosingCurly });
                }
                match &toks[cur] {
                    Token::Comma => {
                        proof {
                            assert(v[cur as int] == toks@[cur as int]@);
                            lemma_bindings_comma_snoc(
                                v,
                                pos as int + 3,
                                st,
                                cur as int,
                                bviews,
                                bv,
                            );
                            bviews = bviews.push(bv);
                        }
                        cur = cur + 1;
                    },
                    Token::RightCurly => {
                        tables.structs.push(
                            StructEntry { name: name.clone(), fields: entry_fields },
                        );
                        let stmt = Statement::StructDef(StructDef { name, fields });
                        proof {
                            assert(v[pos as int + 1] == toks@[pos as int + 1]@);
                            assert(v[pos as int + 2] == toks@[pos as int + 2]@);
                            assert(v[cur as int] == toks@[cur as int]@);
                            lemma_bindings_comma_final(
                                v,
                                pos as int + 3,
                                st,
                                cur as int,
                                bviews,
                                bv,
                            );
                            bviews = bviews.push(bv);
                            lemma_var_view_seq(stmt->StructDef_0.fields@);
                            assert(var_view_seq(stmt->StructDef_0.fields@) =~= bviews);
                            assert(stmt_rep(v, pos as int, cur as int + 1, stmt_view(stmt)));
                        }
                        return Ok((stmt, cur + 1));
                    },
                    _ => {
                        return Err(SyntaxError { position: cur, expected: Expected::ClosingCurly });
                    },
                }
            }
        },
        Token::Function => {
            // func name ( param : type , ... ) -> type { block }
            if pos + 1 >= toks.len() {
                return Err(SyntaxError { position: pos + 1, expected: Expected::Identifier });
            }
            let name = match &toks[pos + 1] {
                Token::Var(n) => n.clone(),
                _ => {
                    return Err(SyntaxError { position: pos + 1, expected: Expected::Identifier });
                },
            };
            if pos + 2 >= toks.len() {
                return Err(SyntaxError { position: pos + 2, expected: Expected::OpeningParen });
            }
            match &toks[pos + 2] {
                Token::LeftParen => {},
                _ => {
                    return Err(SyntaxError { position: pos + 2, expected: Expected::OpeningParen });
                },
            }
            let (params, param_types, cur) = match parse_params(toks, pos + 3) {
                Ok(p) => p,
                Err(e) => {
                    return Err(e);
                },
            };
            if cur >= toks.len() {
                return Err(SyntaxError { position: cur, expected: Expected::OutputArrow });
            }
            match &toks[cur] {
                Token::Output => {},
                _ => {
                    return Err(SyntaxError { position: cur, expected: Expected::OutputArrow });
                },
            }
            let (out_t, p2) = match parse_type(toks, cur + 1) {
                Ok(p) => p,
                Err(e) => {
                    return Err(e);
                },
            };
            // the definition is visible inside its own body
            tables.funcs.push((name.clone(), param_types));
            let (block, p3) = match parse_block(toks, p2, Some(&out_t), tables) {
                Ok(p) => p,
                Err(e) => {
                    return Err(e);
                },
            };
            let output = Var { name: name.clone(), var_type: out_t, value: None };
            let stmt = Statement::Function(Function { name, param: params, output, block });
            proof {
                assert(v[pos as int + 1] == toks@[pos as int + 1]@);
                assert(v[pos as int + 2] == toks@[pos as int + 2]@);
                assert(v[cur as int] == toks@[cur as int]@);
                assert(v[cur as int] == TokenV::Output);
                let fv2 = stmt_view(stmt)->Function_0;
                assert(v[pos as int] == TokenV::Function);
                assert(v[pos as int + 1] == TokenV::Var(fv2.name));
                assert(v[pos as int + 2] == TokenV::LeftParen);
                assert(fv2.output.name == fv2.name);
                assert(fv2.output.value is None);
                assert(v[cur as int - 1] == TokenV::RightParen);
                assert(bindings_rep(v, pos as int + 3, cur as int - 1, fv2.param));
                assert(type_rep(v, cur as int + 1, p2 as int, fv2.output.var_type));
                assert(block_rep(v, p2 as int, p3 as int, fv2.block));
                assert(v[p3 as int - 1] == TokenV::RightCurly);
                assert(stmt_rep(v, pos as int, p3 as int, stmt_view(stmt)));
            }
            Ok((stmt, p3))
        },
        Token::Return => {
            let (e, p1) = match parse_exp(toks, pos + 1, ret, &*tables) {
                Ok(p) => p,
                Err(e) => {
                    return Err(e);
                },
            };
            if p1 >= toks.len() {
                return Err(SyntaxError { position: p1, expected: Expected::Semicolon });
            }
            match &toks[p1] {
                Token::Semicolon => {},
                _ => {
                    return Err(SyntaxError { position: p1, expected: Expected::Semicolon });
                },
            }
            let ghost ev = exp_view(e);
            let stmt = Statement::Return(e);
            proof {
                assert(v[p1 as int] == toks@[p1 as int]@);
                assert(exp_rep(v, pos as int + 1, p1 as int, ev, 0));
                assert(stmt_rep(v, pos as int, p1 as int + 1, stmt_view(stmt)));
            }
            Ok((stmt, p1 + 1))
        },
        Token::If => parse_if(toks, pos, ret, tables),
        Token::While => {
            if pos + 1 >= toks.len() {
                return Err(SyntaxError { position: pos + 1, expected: Expected::OpeningParen });
            }
            match &toks[pos + 1] {
                Token::LeftParen => {},
                _ => {
                    return Err(SyntaxError { position: pos + 1, expected: Expected::OpeningParen });
                },
            }
            let (cond, p1) = match parse_exp(toks, pos + 2, None, &*tables) {
                Ok(p) => p,
                Err(e) => {
                    return Err(e);
                },
            };
            if p1 >= toks.len() {
                return Err(SyntaxError { position: p1, expected: Expected::ClosingParen });
            }
            match &toks[p1] {
                Token::RightParen => {},
                _ => {
                    return Err(SyntaxError { position: p1, expected: Expected::ClosingParen });
                },
            }
            let (block, p2) = match parse_block(toks, p1 + 1, ret, tables) {
                Ok(p) => p,
                Err(e) => {
                    return Err(e);
                },
            };
            let ghost cv = exp_view(cond);
            let stmt = Statement::While(WhileStatement { condition: cond, block });
            proof {
                assert(v[pos as int + 1] == toks@[pos as int + 1]@);
                assert(v[p1 as int] == toks@[p1 as int]@);
                assert(v[p1 as int] == TokenV::RightParen);
                assert(exp_rep(v, pos as int + 2, p1 as int, cv, 0));
                assert(block_rep(v, p1 as int + 1, p2 as int, stmt_view(stmt)->While_0.block));
                assert(stmt_rep(v, pos as int, p2 as int, stmt_view(stmt)));
            }
            Ok((stmt, p2))
        },
        Token::For => {
            // for name in exp { block }; the iteration variable carries no
            // annotation in the source, so its declared type stays `Void`
            // and the checker binds it to the list's element type
            if pos + 1 >= toks.len() {
                return Err(SyntaxError { position: pos + 1, expected: Expected::Identifier });
            }
            let name = match &toks[pos + 1] {
                Token::Var(n) => n.clone(),
                _ => {
                    return Err(SyntaxError { position: pos + 1, expected: Expected::Identifier });
                },
            };
            if pos + 2 >= toks.len() {
                return Err(SyntaxError { position: pos + 2, expected: Expected::InKeyword });
            }
            match &toks[pos + 2] {
                Token::In => {},
                _ => {
                    return Err(SyntaxError { position: pos + 2, expected: Expected::InKeyword });
                },
            }
            let (list, p1) = match parse_exp(toks, pos + 3, None, &*tables) {
                Ok(p) => p,
                Err(e) => {
                    return Err(e);
                },
            };
            let (block, p2) = match parse_block(toks, p1, ret, tables) {
                Ok(p) => p,
                Err(e) => {
                    return Err(e);
                },
            };
            let iter = Var { name, var_type: Type::Void, value: None };
            let ghost lv = exp_view(list);
            let stmt = Statement::For(ForStatement { iter, list, block });
            proof {
                assert(v[pos as int + 1] == toks@[pos as int + 1]@);
                assert(v[pos as int + 2] == toks@[pos as int + 2]@);
                let fv2 = stmt_view(stmt)->For_0;
                assert(v[pos as int] == TokenV::For);
                assert(v[pos as int + 1] == TokenV::Var(fv2.iter.name));
                assert(v[pos as int + 2] == TokenV::In);
                assert(fv2.iter.var_type == TypeV::Void);
                assert(fv2.iter.value is None);
                assert(lv == fv2.list);
                assert(exp_rep(v, pos as int + 3, p1 as int, fv2.list, 0));
                assert(block_rep(v, p1 as int, p2 as int, fv2.block));
                assert(v[p2 as int - 1] == TokenV::RightCurly);
                assert(stmt_rep(v, pos as int, p2 as int, stmt_view(stmt)));
            }
            Ok((stmt, p2))
        },
        _ => Err(SyntaxError { position: pos, expected: Expected::Statement }),
    }
}

/// Parses an `if` statement with its `elif` chain and optional `else`; each
/// `elif` nests as an `if` inside the false branch.
#[verifier::rlimit(50)]
fn parse_if(toks: &Vec<Token>, pos: usize, ret: Option<&Type>, tables: &mut ParserTables) -> (r:
    Result<(Statement, usize), SyntaxError>)
    requires
        pos <= toks@.len(),
        pos < toks@.len() ==> (toks@[pos as int] is If || toks@[pos as int] is Elif),
    ensures
        match r {
            Ok(p) => pos < p.1 <= toks@.len() && p.0 is If && stmt_rep(
                toks.deep_view(),
                pos as int,
                p.1 as int,
                stmt_view(p.0),
            ),
            Err(_) => true,
        },
    decreases toks@.len() - pos, 10int,
{
    let ghost v = toks.deep_view();
    if pos >= toks.len() {
        return Err(SyntaxError { position: pos, expected: Expected::Statement });
    }
    proof {
        assert(v[pos as int] == toks@[pos as int]@);
    }
    if pos + 1 >= toks.len() {
        return Err(SyntaxError { position: pos + 1, expected: Expected::OpeningParen });
    }
    match &toks[pos + 1] {
        Token::LeftParen => {},
        _ => {
            return Err(SyntaxError { position: pos + 1, expected: Expected::OpeningParen });
        },
    }
    let (cond, p1) = match parse_exp(toks, pos + 2, None, &*tables) {
        Ok(p) => p,
        Err(e) => {
            return Err(e);
        },
    };
    if p1 >= toks.len() {
        return Err(SyntaxError { position: p1, expected: Expected::ClosingParen });
    }
    match &toks[p1] {
        Token::RightParen => {},
        _ => {
            return Err(SyntaxError { position: p1, expected: Expected::ClosingParen });
        },
    }
    let (tb, p2) = match parse_block(toks, p1 + 1, ret, tables) {
        Ok(p) => p,
        Err(e) => {
            return Err(e);
        },
    };
    if p2 < toks.len() {
        let is_elif = match &toks[p2] {
            Token::Elif => true,
            _ => false,
        };
        let is_else = match &toks[p2] {
            Token::Else => true,
            _ => false,
        };
        if is_elif {
            let (rest, p3) = match parse_if(toks, p2, ret, tables) {
                Ok(p) => p,
                Err(e) => {
                    return Err(e);
                },
            };
            let ghost restv = stmt_view(rest);
            let ghost tbv = stmt_view_seq(tb@);
            let mut fb: Vec<Statement> = Vec::new();
            fb.push(rest);
            let ghost cv = exp_view(cond);
            let stmt = Statement::If(
                IfStatement { condition: cond, true_branch: tb, false_branch: Some(fb) },
            );
            proof {
                assert(v[pos as int + 1] == toks@[pos as int + 1]@);
                assert(v[p1 as int] == toks@[p1 as int]@);
                assert(v[p1 as int] == TokenV::RightParen);
                assert(v[p2 as int] == toks@[p2 as int]@);
                assert(exp_rep(v, pos as int + 2, p1 as int, cv, 0));
                assert(block_rep(v, p1 as int + 1, p2 as int, tbv));
                assert(v[p2 as int - 1] == TokenV::RightCurly);
                lemma_stmt_view_seq(fb@);
                assert(stmt_view_seq(fb@) =~= seq![restv]);
                assert(stmt_rep(v, p2 as int, p3 as int, restv));
                // the nested chain ends the whole statement in its own brace
                assert(v[p3 as int - 1] == TokenV::RightCurly);
                assert(stmt_rep(v, pos as int, p3 as int, stmt_view(stmt)));
            }
            return Ok((stmt, p3));
        }
        if is_else {
            let (fb, p3) = match parse_block(toks, p2 + 1, ret, tables) {
                Ok(p) => p,
                Err(e) => {
                    return Err(e);
                },
            };
            let ghost cv = exp_view(cond);
            let ghost tbv = stmt_view_seq(tb@);
            let ghost fbv = stmt_view_seq(fb@);
            let stmt = Statement::If(
                IfStatement { condition: cond, true_branch: tb, false_branch: Some(fb) },
            );
            proof {
                assert(v[pos as int + 1] == toks@[pos as int + 1]@);
                assert(v[p1 as int] == toks@[p1 as int]@);
                assert(v[p1 as int] == TokenV::RightParen);
                assert(v[p2 as int] == toks@[p2 as int]@);
                assert(exp_rep(v, pos as int + 2, p1 as int, cv, 0));
                assert(block_rep(v, p1 as int + 1, p2 as int, tbv));
                assert(v[p2 as int - 1] == TokenV::RightCurly);
                assert(block_rep(v, p2 as int + 1, p3 as int, fbv));
                assert(stmt_rep(v, pos as int, p3 as int, stmt_view(stmt)));
            }
            return Ok((stmt, p3));
        }
    }
    let ghost cv = exp_view(cond);
    let ghost tbv = stmt_view_seq(tb@);
    let stmt = Statement::If(IfStatement { condition: cond, true_branch: tb, false_branch: None });
    proof {
        assert(v[pos as int + 1] == toks@[pos as int + 1]@);
        assert(v[p1 as int] == toks@[p1 as int]@);
        assert(v[p1 as int] == TokenV::RightParen);
        assert(exp_rep(v, pos as int + 2, p1 as int, cv, 0));
        assert(block_rep(v, p1 as int + 1, p2 as int, tbv));
        assert(v[p2 as int - 1] == TokenV::RightCurly);
        assert(stmt_rep(v, pos as int, p2 as int, stmt_view(stmt)));
    }
    Ok((stmt, p2))
}

// ---------------------------------------------------------------------------
// Entry points
// ---------------------------------------------------------------------------

/// Parses a whole program into its chain of top-level statements and bare
/// expressions.  A successful result covers exactly the input: the chain's
/// nodes partition the tokens in order, each node a parse of its own span,
/// per `items_rep`.  Any structural mismatch aborts the parse with one
/// `SyntaxError`; no partial tree is produced.
///
/// The contract pins the success side and owes success on the inputs below;
/// it does not state the converse, that an error comes only when no parse
/// exists.  That converse does not hold against the token-only relation:
/// the grammar reads `{` and `[` literals only under a type-implying
/// context and judges call arity against the declarations in scope, so a
/// token span can satisfy `items_rep` and still be rightly rejected.  An
/// error-side contract would have to thread the expected types and the
/// declaration tables through the relation, in effect restating the parser.
#[verifier::rlimit(80)]
#[verifier::loop_isolation(false)]
pub fn parse(input: Vec<Token>) -> (r: Result<AST, SyntaxError>)
    ensures
        match r {
            Ok(ast) => items_rep(input.deep_view(), 0, input@.len() as int, ast_view(ast)),
            Err(_) => true,
        },
        input@.len() == 0 ==> r is Ok,
        flat_exp(input.deep_view(), 0, input@.len() as int) ==> r is Ok,
{
    let ghost v = input.deep_view();
    let mut tables = ParserTables { structs: Vec::new(), funcs: Vec::new() };
    let mut items: Vec<AST> = Vec::new();
    let ghost mut collected: Seq<ItemV> = Seq::empty();
    let n = input.len();
    let mut cur: usize = 0;
    loop
        invariant
            cur <= n,
            flat_exp(v, 0, n as int) ==> (cur == 0 || cur == n),
            items_rep_strict(v, 0, cur as int, collected) || (cur == n && items_rep(
                v,
                0,
                n as int,
                collected,
            )),
            items@.len() == collected.len(),
            forall|k: int|
                0 <= k < items@.len() ==> #[trigger] ast_view(items@[k]) == seq![collected[k]],
        decreases n - cur,
    {
        if cur >= n {
            break;
        }
        proof {
            assert(v[cur as int] == input@[cur as int]@);
        }
        let starts_stmt = match &input[cur] {
            Token::Let => true,
            Token::Function => true,
            Token::Struct => true,
            Token::Return => true,
            Token::If => true,
            Token::While => true,
            Token::For => true,
            _ => false,
        };
        if starts_stmt {
            let (st, p1) = match parse_stmt(&input, cur, None, &mut tables) {
                Ok(p) => p,
                Err(e) => {
                    return Err(e);
                },
            };
            let ghost sv = stmt_view(st);
            let node = AST::StmtNode(st, Box::new(AST::Leaf));
            proof {
                assert(ast_view(AST::Leaf) == Seq::<ItemV>::empty());
                assert(ast_view(node) =~= seq![ItemV::Stmt(sv)]);
                assert(item_rep(v, cur as int, p1 as int, ItemV::Stmt(sv)));
                assert(items_rep_strict(v, 0, cur as int, collected));
                lemma_items_rep_snoc_strict(
                    v,
                    0,
                    cur as int,
                    p1 as int,
                    collected,
                    ItemV::Stmt(sv),
                );
                collected = collected.push(ItemV::Stmt(sv));
            }
            items.push(node);
            cur = p1;
        } else {
            let (e, p1) = match parse_exp(&input, cur, None, &tables) {
                Ok(p) => p,
                Err(er) => {
                    return Err(er);
                },
            };
            let ghost ev = exp_view(e);
            let node = AST::ExpNode(e, Box::new(AST::Leaf));
            // a bare expression ends with a semicolon, unless the input ends
            if p1 < n {
                match &input[p1] {
                    Token::Semicolon => {},
                    _ => {
                        return Err(SyntaxError { position: p1, expected: Expected::Semicolon });
                    },
                }
                proof {
                    assert(v[p1 as int] == input@[p1 as int]@);
                    assert(ast_view(AST::Leaf) == Seq::<ItemV>::empty());
                    assert(ast_view(node) =~= seq![ItemV::Exp(ev)]);
                    assert(item_rep(v, cur as int, p1 as int + 1, ItemV::Exp(ev)));
                    assert(items_rep_strict(v, 0, cur as int, collected));
                    lemma_items_rep_snoc_strict(
                        v,
                        0,
                        cur as int,
                        p1 as int + 1,
                        collected,
                        ItemV::Exp(ev),
                    );
                    collected = collected.push(ItemV::Exp(ev));
                }
                cur = p1 + 1;
            } else {
                proof {
                    assert(ast_view(AST::Leaf) == Seq::<ItemV>::empty());
                    assert(ast_view(node) =~= seq![ItemV::Exp(ev)]);
                    assert(item_rep_last(v, cur as int, p1 as int, ItemV::Exp(ev)));
                    assert(items_rep_strict(v, 0, cur as int, collected));
                    lemma_items_rep_snoc_last(
                        v,
                        0,
                        cur as int,
                        p1 as int,
                        collected,
                        ItemV::Exp(ev),
                    );
                    collected = collected.push(ItemV::Exp(ev));
                }
                cur = p1;
            }
            items.push(node);
        }
    }
    proof {
        if items_rep_strict(v, 0, n as int, collected) {
            lemma_items_rep_strict_weaken(v, 0, n as int, collected);
        }
        assert(items_rep(v, 0, n as int, collected));
    }
    // fold the collected nodes into a chain ending in a leaf
    let mut chain = AST::Leaf;
    proof {
        assert(collected.subrange(collected.len() as int, collected.len() as int)
            =~= Seq::<ItemV>::empty());
        assert(ast_view(chain) =~= Seq::<ItemV>::empty());
    }
    loop
        invariant
            items@.len() <= collected.len(),
            ast_view(chain) == collected.subrange(items@.len() as int, collected.len() as int),
            forall|k: int|
                0 <= k < items@.len() ==> #[trigger] ast_view(items@[k]) == seq![collected[k]],
        decreases items@.len(),
    {
        let ghost prev_items = items@;
        let ghost prev_chain_view = ast_view(chain);
        match items.pop() {
            Some(node) => {
                let ghost idx = prev_items.len() as int - 1;
                let ghost nv = ast_view(node);
                proof {
                    assert(node == prev_items[idx]);
                    assert(nv == seq![collected[idx]]);
                }
                match node {
                    AST::StmtNode(st, _) => {
                        let ghost sv = stmt_view(st);
                        chain = AST::StmtNode(st, Box::new(chain));
                        proof {
                            assert(nv[0] == ItemV::Stmt(sv));
                            assert(ast_view(chain) =~= seq![ItemV::Stmt(sv)] + prev_chain_view);
                        }
                    },
                    AST::ExpNode(e, _) => {
                        let ghost ev = exp_view(e);
                        chain = AST::ExpNode(e, Box::new(chain));
                        proof {
                            assert(nv[0] == ItemV::Exp(ev));
                            assert(ast_view(chain) =~= seq![ItemV::Exp(ev)] + prev_chain_view);
                        }
                    },
                    AST::Leaf => {
                        proof {
                            assert(nv.len() == 1);
                            assert(ast_view(AST::Leaf).len() == 0);
                            assert(false);
                        }
                    },
                }
                proof {
                    assert(ast_view(chain) =~= seq![collected[idx]] + prev_chain_view);
                    assert(seq![collected[idx]] + collected.subrange(
                        idx + 1,
                        collected.len() as int,
                    ) =~= collected.subrange(idx, collected.len() as int));
                }
            },
            None => {
                break;
            },
        }
    }
    proof {
        assert(collected.subrange(0, collected.len() as int) =~= collected);
    }
    Ok(chain)
}

/// Parses one expression that must span the whole token sequence.  A
/// successful result is a parse of exactly those tokens under the
/// precedence-climbing grammar `exp_rep`: operators bind by level, equal
/// levels associate to the left.  As with `parse`, the error side states
/// only the owed success below: the structural literals read only under a
/// type-implying context, which the token-only relation does not carry.
pub fn parse_expression(tokens: &Vec<Token>) -> (r: Result<Exp, SyntaxError>)
    ensures
        match r {
            Ok(e) => tokens@.len() > 0 && exp_rep(
                tokens.deep_view(),
                0,
                tokens@.len() as int,
                exp_view(e),
                0,
            ),
            Err(_) => true,
        },
        flat_exp(tokens.deep_view(), 0, tokens@.len() as int) ==> r is Ok,
{
    let tables = ParserTables { structs: Vec::new(), funcs: Vec::new() };
    let (e, p1) = match parse_exp(tokens, 0, None, &tables) {
        Ok(p) => p,
        Err(er) => {
            return Err(er);
        },
    };
    if p1 < tokens.len() {
        return Err(SyntaxError { position: p1, expected: Expected::EndOfInput });
    }
    Ok(e)
}

} // verus!
