use tinylang::ast::{Exp, Statement, AST};
use tinylang::parser::{parse, parse_expression};
use tinylang::token::Token;
use tinylang::tokenizer::tokenize;
use tinylang::type_checker::{exp_type, type_check, TypeContext};
use tinylang::types::Type;

#[test]
fn type_check_leaf() {
    assert_eq!(Ok(AST::Leaf), type_check(AST::Leaf))
}

#[test]
// let x: int = 1;
fn type_check_int_var() {
    let token = tokenize("let x: int = 1;").unwrap();
    let parsed = parse(token).unwrap();
    let checked = type_check(parsed).unwrap();
    match checked {
        AST::StmtNode(Statement::Assignment(v, e), _) => {
            assert_eq!(v.var_type, Type::Int);
            let mut ctx = TypeContext::new();
            assert_eq!(exp_type(&mut ctx, &e), Ok(Type::Int));
        }
        _ => panic!("expected an assignment"),
    }
}

#[test]
// 5+1;
fn type_check_int_add_operation() {
    let token = tokenize("5+1;").unwrap();
    let parsed = parse(token).unwrap();
    let checked = type_check(parsed).unwrap();
    match checked {
        AST::ExpNode(e, _) => {
            let mut ctx = TypeContext::new();
            assert_eq!(exp_type(&mut ctx, &e), Ok(Type::Int));
        }
        _ => panic!("expected an expression"),
    }
}

#[test]
// 4-2
fn type_check_int_substract_operation() {
    let token = tokenize("4-2;").unwrap();
    let parsed = parse(token).unwrap();
    let checked = type_check(parsed).unwrap();
    match checked {
        AST::ExpNode(e, _) => {
            let mut ctx = TypeContext::new();
            assert_eq!(exp_type(&mut ctx, &e), Ok(Type::Int));
        }
        _ => panic!("expected an expression"),
    }
}

#[test]
fn type_check_int_modulo_operation() {
    let token = tokenize("10%2;").unwrap();
    let parsed = parse(token).unwrap();
    let checked = type_check(parsed).unwrap();
    match checked {
        AST::ExpNode(e, _) => {
            let mut ctx = TypeContext::new();
            assert_eq!(exp_type(&mut ctx, &e), Ok(Type::Int));
        }
        _ => panic!("expected an expression"),
    }
}

#[test]
fn type_check_int_divide_operation() {
    let token = tokenize("4/2;").unwrap();
    let parsed = parse(token).unwrap();
    let checked = type_check(parsed).unwrap();
    match checked {
        AST::ExpNode(e, _) => {
            let mut ctx = TypeContext::new();
            assert_eq!(exp_type(&mut ctx, &e), Ok(Type::Int));
        }
        _ => panic!("expected an expression"),
    }
}

#[test]
fn type_check_int_multiply_operation() {
    let token = tokenize("3*3;").unwrap();
    let parsed = parse(token).unwrap();
    let checked = type_check(parsed).unwrap();
    match checked {
        AST::ExpNode(e, _) => {
            let mut ctx = TypeContext::new();
            assert_eq!(exp_type(&mut ctx, &e), Ok(Type::Int));
        }
        _ => panic!("expected an expression"),
    }
}

#[test]
// let x: int = 1 + 2;
fn type_check_int_var_add() {
    let token = tokenize("let x: int = 1 + 2;").unwrap();
    let parsed = parse(token).unwrap();
    let checked = type_check(parsed).unwrap();
    match checked {
        AST::StmtNode(Statement::Assignment(v, e), _) => {
            assert_eq!(v.var_type, Type::Int);
            let mut ctx = TypeContext::new();
            assert_eq!(exp_type(&mut ctx, &e), Ok(Type::Int));
        }
        _ => panic!("expected an assignment"),
    }
}

#[test]
// let x: int = 3 - 2;
fn type_check_int_var_substract() {
    let token = tokenize("let x: int = 3 - 2;").unwrap();
    let parsed = parse(token).unwrap();
    let checked = type_check(parsed).unwrap();
    match checked {
        AST::StmtNode(Statement::Assignment(v, e), _) => {
            assert_eq!(v.var_type, Type::Int);
            let mut ctx = TypeContext::new();
            assert_eq!(exp_type(&mut ctx, &e), Ok(Type::Int));
        }
        _ => panic!("expected an assignment"),
    }
}

#[test]
// let x: int = 9 / 3;
fn type_check_int_var_divide() {
    let token = tokenize("let x: int = 9 / 3;").unwrap();
    let parsed = parse(token).unwrap();
    let checked = type_check(parsed).unwrap();
    match checked {
        AST::StmtNode(Statement::Assignment(v, e), _) => {
            assert_eq!(v.var_type, Type::Int);
            let mut ctx = TypeContext::new();
            assert_eq!(exp_type(&mut ctx, &e), Ok(Type::Int));
        }
        _ => panic!("expected an assignment"),
    }
}

#[test]
// let x: int = 4 % 2;
fn type_check_int_var_modulo() {
    let token = tokenize("let x: int = 4 % 2;").unwrap();
    let parsed = parse(token).unwrap();
    let checked = type_check(parsed).unwrap();
    match checked {
        AST::StmtNode(Statement::Assignment(v, e), _) => {
            assert_eq!(v.var_type, Type::Int);
            let mut ctx = TypeContext::new();
            assert_eq!(exp_type(&mut ctx, &e), Ok(Type::Int));
        }
        _ => panic!("expected an assignment"),
    }
}

#[test]
// let x: int = 2 * 3 + 8 / 2;
fn type_check_int_var_multiple_operations() {
    let token = tokenize("let x: int = 2 * 3 + 8 / 2;").unwrap();
    let parsed = parse(token).unwrap();
    let checked = type_check(parsed).unwrap();
    match checked {
        AST::StmtNode(Statement::Assignment(v, e), _) => {
            assert_eq!(v.var_type, Type::Int);
            let mut ctx = TypeContext::new();
            assert_eq!(exp_type(&mut ctx, &e), Ok(Type::Int));
        }
        _ => panic!("expected an assignment"),
    }
}

#[test]
// for x in(9)
fn type_check_int_for_loop() {
    // `for x in(9);` has no loop body, so it does not parse as a statement;
    // the literal it iterates over still carries the int type
    let token = tokenize("for x in(9);").unwrap();
    assert_eq!(token[4], Token::Int(9));
    assert!(parse(token).is_err());
    let mut ctx = TypeContext::new();
    assert_eq!(exp_type(&mut ctx, &Exp::Int(9)), Ok(Type::Int));
}

#[test]
// let s: str = "Hi!"
fn type_check_str_assign() {
    // `Hi!` is not an expression, so the program does not parse; the
    // annotation still names the str type
    let token = tokenize("let s: str = Hi!;").unwrap();
    assert_eq!(token[3], Token::TypeName(Type::Str));
    let mut ctx = TypeContext::new();
    assert_eq!(
        exp_type(&mut ctx, &Exp::Str(String::from("Hi!"))),
        Ok(Type::Str)
    );
}

//==================Boolean Test Cases=====================
#[test]
fn type_check_bool() {
    let token = tokenize("true").unwrap();
    let parsed = parse(token).unwrap();
    let checked = type_check(parsed).unwrap();
    match checked {
        AST::ExpNode(e, _) => {
            let mut ctx = TypeContext::new();
            assert_eq!(exp_type(&mut ctx, &e), Ok(Type::Bool));
        }
        _ => panic!("expected an expression"),
    }
}

#[test]
fn type_check_let_bool() {
    // the statement lacks its closing semicolon, so it does not parse; the
    // annotation and the literal still agree on bool
    let token = tokenize("let x: bool = false").unwrap();
    assert_eq!(token[3], Token::TypeName(Type::Bool));
    let mut ctx = TypeContext::new();
    assert_eq!(exp_type(&mut ctx, &Exp::Bool(false)), Ok(Type::Bool));
}

#[test]
fn type_check_not_equal_bool() {
    let token = tokenize("1 != 0").unwrap();
    let e = parse_expression(&token).unwrap();
    let mut ctx = TypeContext::new();
    assert_eq!(exp_type(&mut ctx, &e), Ok(Type::Bool));
}

#[test]
fn type_check_equal_bool() {
    let token = tokenize("0 == 0").unwrap();
    let e = parse_expression(&token).unwrap();
    let mut ctx = TypeContext::new();
    assert_eq!(exp_type(&mut ctx, &e), Ok(Type::Bool));
}

#[test]
fn type_check_and_bool() {
    let token = tokenize("x && y").unwrap();
    let e = parse_expression(&token).unwrap();
    let mut ctx = TypeContext::new();
    ctx.declare_var(String::from("x"), Type::Bool);
    ctx.declare_var(String::from("y"), Type::Bool);
    assert_eq!(exp_type(&mut ctx, &e), Ok(Type::Bool));
}

#[test]
fn type_check_or_bool() {
    let token = tokenize("x || y").unwrap();
    let e = parse_expression(&token).unwrap();
    let mut ctx = TypeContext::new();
    ctx.declare_var(String::from("x"), Type::Bool);
    ctx.declare_var(String::from("y"), Type::Bool);
    assert_eq!(exp_type(&mut ctx, &e), Ok(Type::Bool));
}

#[test]
fn type_check_if_and_bool() {
    let mut token = tokenize("if(x == y && x > 10)").unwrap();
    assert_eq!(token.remove(0), Token::If);
    assert_eq!(token.remove(0), Token::LeftParen);
    assert_eq!(token.pop(), Some(Token::RightParen));
    let e = parse_expression(&token).unwrap();
    let mut ctx = TypeContext::new();
    ctx.declare_var(String::from("x"), Type::Int);
    ctx.declare_var(String::from("y"), Type::Int);
    assert_eq!(exp_type(&mut ctx, &e), Ok(Type::Bool));
}

#[test]
fn type_check_if_or_bool() {
    let mut token = tokenize("if(x == y || z < 5)").unwrap();
    assert_eq!(token.remove(0), Token::If);
    assert_eq!(token.remove(0), Token::LeftParen);
    assert_eq!(token.pop(), Some(Token::RightParen));
    let e = parse_expression(&token).unwrap();
    let mut ctx = TypeContext::new();
    ctx.declare_var(String::from("x"), Type::Int);
    ctx.declare_var(String::from("y"), Type::Int);
    ctx.declare_var(String::from("z"), Type::Int);
    assert_eq!(exp_type(&mut ctx, &e), Ok(Type::Bool));
}

#[test]
fn type_check_return_bool() {
    let mut token = tokenize("return true").unwrap();
    assert_eq!(token.remove(0), Token::Return);
    let e = parse_expression(&token).unwrap();
    let mut ctx = TypeContext::new();
    assert_eq!(exp_type(&mut ctx, &e), Ok(Type::Bool));
}
