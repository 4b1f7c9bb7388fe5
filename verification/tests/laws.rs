use tinylang::ast::{Exp, Operation, Statement, AST};
use tinylang::parser::{parse, parse_expression, Expected, SyntaxError};
use tinylang::token::{LexError, Token};
use tinylang::tokenizer::{tokenize, tokenize_symbol, tokenize_word};
use tinylang::type_checker::{exp_type, type_check, ErrorNode, FuncSig, TypeContext, TypeError};
use tinylang::types::Type;

/// The canonical text of one token, for the round-trip checks.
fn render(t: &Token) -> String {
    match t {
        Token::If => String::from("if"),
        Token::Elif => String::from("elif"),
        Token::Else => String::from("else"),
        Token::For => String::from("for"),
        Token::In => String::from("in"),
        Token::While => String::from("while"),
        Token::Function => String::from("func"),
        Token::Return => String::from("return"),
        Token::Let => String::from("let"),
        Token::Struct => String::from("struct"),
        Token::Output => String::from("->"),
        Token::Assign => String::from("="),
        Token::TypeName(Type::Int) => String::from("int"),
        Token::TypeName(Type::Str) => String::from("str"),
        Token::TypeName(Type::Bool) => String::from("bool"),
        Token::TypeName(_) => String::from("void"),
        Token::Int(n) => n.to_string(),
        Token::Bool(b) => {
            if *b {
                String::from("true")
            } else {
                String::from("false")
            }
        }
        Token::Str(s) => format!("\"{}\"", s),
        Token::Var(s) => s.clone(),
        Token::LeftCurly => String::from("{"),
        Token::LeftBrace => String::from("["),
        Token::LeftParen => String::from("("),
        Token::RightCurly => String::from("}"),
        Token::RightBrace => String::from("]"),
        Token::RightParen => String::from(")"),
        Token::Dot => String::from("."),
        Token::Comma => String::from(","),
        Token::Colon => String::from(":"),
        Token::Semicolon => String::from(";"),
        Token::Minus => String::from("-"),
        Token::Plus => String::from("+"),
        Token::Divide => String::from("/"),
        Token::Multiply => String::from("*"),
        Token::Modulo => String::from("%"),
        Token::And => String::from("&&"),
        Token::Or => String::from("||"),
        Token::Not => String::from("!"),
        Token::GreaterThan => String::from(">"),
        Token::LessThan => String::from("<"),
        Token::GreaterEqual => String::from(">="),
        Token::LessEqual => String::from("<="),
        Token::Equal => String::from("=="),
        Token::NotEqual => String::from("!="),
    }
}

#[test]
fn token_round_trip_over_a_program() {
    let src = "let x_1: int = 1_000; while (x_1 >= 5) { return \"done !\"; } \
               struct P { a: bool, } for i in [1, -2,] { return i % 3; } \
               x_1 <= 7; x_1 != 8; x_1 == 9; !true || false && (1 < 2) . , : ;";
    let toks = tokenize(src).unwrap();
    assert!(toks.len() > 30);
    for t in &toks {
        let again = tokenize(&render(t)).unwrap();
        assert_eq!(again.len(), 1);
        assert_eq!(&again[0], t);
    }
}

#[test]
fn token_round_trip_edge_payloads() {
    let singles = vec![
        Token::Int(0),
        Token::Int(2147483647),
        Token::Var(String::from("_under_score_9")),
        Token::Var(String::from("2147483648")),
        Token::Str(String::from("")),
        Token::Str(String::from("a { b } [ ; ] end")),
        Token::TypeName(Type::Void),
    ];
    for t in &singles {
        let again = tokenize(&render(t)).unwrap();
        assert_eq!(again.len(), 1);
        assert_eq!(&again[0], t);
    }
}

#[test]
fn unterminated_string_is_lex_error() {
    assert_eq!(tokenize("\"Hello"), Err(LexError::UnterminatedString));
    assert_eq!(
        tokenize("let s: str = \"oops;"),
        Err(LexError::UnterminatedString)
    );
    // the quote may open anywhere in the input
    assert_eq!(
        tokenize("let a: int = 1; \"late"),
        Err(LexError::UnterminatedString)
    );
}

#[test]
fn unknown_symbol_is_lex_error() {
    assert_eq!(tokenize("&"), Err(LexError::UnrecognizedSymbol));
    assert_eq!(tokenize("a ? b"), Err(LexError::UnrecognizedSymbol));
    assert_eq!(tokenize("|||"), Err(LexError::UnrecognizedSymbol));
}

#[test]
fn symbol_table_lookup() {
    assert_eq!(tokenize_symbol("->"), Some(Token::Output));
    assert_eq!(tokenize_symbol("<="), Some(Token::LessEqual));
    assert_eq!(tokenize_symbol(";"), Some(Token::Semicolon));
    assert_eq!(tokenize_symbol("&"), None);
    assert_eq!(tokenize_symbol(""), None);
    assert_eq!(tokenize_symbol("==="), None);
}

#[test]
fn word_table_lookup() {
    assert_eq!(tokenize_word("elif"), Some(Token::Elif));
    assert_eq!(tokenize_word("void"), Some(Token::TypeName(Type::Void)));
    assert_eq!(tokenize_word(""), None);
    assert_eq!(
        tokenize_word("5"),
        Some(Token::Var(String::from("5")))
    );
}

#[test]
fn precedence_mul_before_add() {
    let token = tokenize("2 * 3 + 8 / 2").unwrap();
    let e = parse_expression(&token).unwrap();
    let expected = Exp::Op(
        Operation::Add,
        Box::new(Exp::Op(
            Operation::Multiply,
            Box::new(Exp::Int(2)),
            Box::new(Exp::Int(3)),
        )),
        Box::new(Exp::Op(
            Operation::Divide,
            Box::new(Exp::Int(8)),
            Box::new(Exp::Int(2)),
        )),
    );
    assert_eq!(e, expected);
}

#[test]
fn precedence_left_associative_and_parens() {
    let token = tokenize("1 - 2 - 3").unwrap();
    let e = parse_expression(&token).unwrap();
    let expected = Exp::Op(
        Operation::Subtract,
        Box::new(Exp::Op(
            Operation::Subtract,
            Box::new(Exp::Int(1)),
            Box::new(Exp::Int(2)),
        )),
        Box::new(Exp::Int(3)),
    );
    assert_eq!(e, expected);

    let token = tokenize("1 - (2 - 3)").unwrap();
    let e = parse_expression(&token).unwrap();
    let expected = Exp::Op(
        Operation::Subtract,
        Box::new(Exp::Int(1)),
        Box::new(Exp::Op(
            Operation::Subtract,
            Box::new(Exp::Int(2)),
            Box::new(Exp::Int(3)),
        )),
    );
    assert_eq!(e, expected);
}

#[test]
fn unary_minus_and_not() {
    let token = tokenize("-5 + !true").unwrap();
    let e = parse_expression(&token).unwrap();
    let expected = Exp::Op(
        Operation::Add,
        Box::new(Exp::Negate(Box::new(Exp::Int(5)))),
        Box::new(Exp::Not(Box::new(Exp::Bool(true)))),
    );
    assert_eq!(e, expected);
}

#[test]
fn if_else_parses_to_if_statement() {
    let token = tokenize("if (x < 5) { return true; } else { return false; }").unwrap();
    let ast = parse(token).unwrap();
    match ast {
        AST::StmtNode(Statement::If(i), rest) => {
            assert!(matches!(*rest, AST::Leaf));
            assert!(matches!(i.condition, Exp::Op(Operation::LessThan, _, _)));
            assert_eq!(i.true_branch.len(), 1);
            assert!(matches!(
                i.true_branch[0],
                Statement::Return(Exp::Bool(true))
            ));
            let fb = i.false_branch.expect("an else branch");
            assert_eq!(fb.len(), 1);
            assert!(matches!(fb[0], Statement::Return(Exp::Bool(false))));
        }
        _ => panic!("expected an if statement"),
    }
}

#[test]
fn elif_nests_in_false_branch() {
    let token =
        tokenize("if (a) { return 1; } elif (b) { return 2; } else { return 3; }").unwrap();
    let ast = parse(token).unwrap();
    match ast {
        AST::StmtNode(Statement::If(i), _) => {
            let fb = i.false_branch.expect("an elif branch");
            assert_eq!(fb.len(), 1);
            match &fb[0] {
                Statement::If(inner) => {
                    assert!(matches!(inner.condition, Exp::Var(_)));
                    assert!(inner.false_branch.is_some());
                }
                _ => panic!("the elif chain nests as an if"),
            }
        }
        _ => panic!("expected an if statement"),
    }
}

const WELL_TYPED: &str = "struct Point { x: int, y: int, } \
    func add(a: int, b: int,) -> int { let c: int = a + b; return c; } \
    let p: Point = { x: 1, y: 2, }; \
    let n: int = add(1, 2); \
    let l: [int] = [1, 2, 3,]; \
    let f: (int -> int) = (a) { return 1 + a; }; \
    let ok: bool = true; \
    if (ok) { let q: int = n * 2; } else { let r: str = \"other\"; } \
    while (!ok) { let w: int = 0; } \
    for i in l { let d: int = i % 2; }";

#[test]
fn well_typed_program_passes_the_pipeline() {
    let a = parse(tokenize(WELL_TYPED).unwrap()).unwrap();
    let b = parse(tokenize(WELL_TYPED).unwrap()).unwrap();
    let checked = type_check(a).unwrap();
    // the validated tree is the parsed tree, unchanged
    assert_eq!(checked, b);
}

#[test]
fn type_check_is_idempotent() {
    let a = parse(tokenize(WELL_TYPED).unwrap()).unwrap();
    let b = parse(tokenize(WELL_TYPED).unwrap()).unwrap();
    let once = type_check(a).unwrap();
    let twice = type_check(once).unwrap();
    assert_eq!(twice, b);
}

#[test]
fn ill_typed_assignment_is_rejected() {
    let a = parse(tokenize("let x: int = true;").unwrap()).unwrap();
    assert_eq!(
        type_check(a),
        Err(TypeError::Mismatch {
            node: ErrorNode::Assignment(String::from("x")),
            expected: Type::Int,
            found: Type::Bool
        })
    );
}

#[test]
fn undeclared_variable_is_rejected() {
    let a = parse(tokenize("y;").unwrap()).unwrap();
    assert_eq!(
        type_check(a),
        Err(TypeError::UndeclaredVariable(String::from("y")))
    );
}

#[test]
fn undefined_function_is_rejected() {
    let a = parse(tokenize("foo(1);").unwrap()).unwrap();
    assert_eq!(
        type_check(a),
        Err(TypeError::UndefinedFunction(String::from("foo")))
    );
}

#[test]
fn undefined_struct_is_rejected() {
    let a = parse(tokenize("let p: Foo = { x: 1, };").unwrap()).unwrap();
    assert_eq!(
        type_check(a),
        Err(TypeError::UndefinedStruct(String::from("Foo")))
    );
}

#[test]
fn wrong_field_name_is_rejected() {
    let src = "struct Point { x: int, y: int, } let p: Point = { x: 1, z: 2, };";
    let a = parse(tokenize(src).unwrap()).unwrap();
    assert_eq!(
        type_check(a),
        Err(TypeError::FieldMismatch(String::from("Point")))
    );
}

#[test]
fn wrong_field_type_is_rejected() {
    let src = "struct Point { x: int, y: int, } let p: Point = { x: 1, y: true, };";
    let a = parse(tokenize(src).unwrap()).unwrap();
    assert_eq!(
        type_check(a),
        Err(TypeError::Mismatch {
            node: ErrorNode::Field(String::from("Point"), String::from("y")),
            expected: Type::Int,
            found: Type::Bool
        })
    );
}

#[test]
fn call_arity_mismatch_is_a_type_error() {
    // a call reaching the checker with the wrong argument count
    let mut ctx = TypeContext {
        vars: vec![],
        structs: vec![],
        funcs: vec![FuncSig {
            name: String::from("inc"),
            params: vec![Type::Int],
            output: Type::Int,
        }],
    };
    let call = Exp::Call(String::from("inc"), vec![]);
    assert_eq!(
        exp_type(&mut ctx, &call),
        Err(TypeError::ArityMismatch(String::from("inc")))
    );
}

#[test]
fn call_arity_mismatch_is_a_syntax_error_when_declared() {
    let src = "func inc(a: int,) -> int { return a + 1; } let n: int = inc(1, 2);";
    let r = parse(tokenize(src).unwrap());
    match r {
        Err(e) => assert_eq!(e.expected, Expected::ArgumentCount),
        Ok(_) => panic!("the call has too many arguments"),
    }
}

#[test]
fn for_over_non_list_is_rejected() {
    let a = parse(tokenize("for i in 5 { let x: int = 1; }").unwrap()).unwrap();
    assert_eq!(type_check(a), Err(TypeError::NotAList(Type::Int)));
}

#[test]
fn list_of_void_is_rejected() {
    let mut ctx = TypeContext::new();
    let e = Exp::List(Type::Void, vec![]);
    assert_eq!(
        exp_type(&mut ctx, &e),
        Err(TypeError::InvalidListElement(Type::Void))
    );
}

#[test]
fn non_bool_condition_is_rejected() {
    let a = parse(tokenize("if (1) { let x: int = 1; }").unwrap()).unwrap();
    assert_eq!(
        type_check(a),
        Err(TypeError::Mismatch {
            node: ErrorNode::Condition,
            expected: Type::Bool,
            found: Type::Int
        })
    );
}

#[test]
fn return_type_mismatch_is_rejected() {
    let src = "func f(a: int,) -> int { return true; }";
    let a = parse(tokenize(src).unwrap()).unwrap();
    assert_eq!(
        type_check(a),
        Err(TypeError::Mismatch {
            node: ErrorNode::ReturnValue,
            expected: Type::Int,
            found: Type::Bool
        })
    );
}

#[test]
fn missing_semicolon_is_a_syntax_error() {
    let r = parse(tokenize("let x: int = 5").unwrap());
    assert_eq!(
        r,
        Err(SyntaxError {
            position: 6,
            expected: Expected::Semicolon
        })
    );
}

#[test]
fn empty_list_checks_against_any_element_type() {
    let a = parse(tokenize("let l: [str] = [];").unwrap()).unwrap();
    assert!(type_check(a).is_ok());
}

#[test]
fn explicitly_typed_list_literal() {
    let token = tokenize("[int][1, 2]").unwrap();
    let e = parse_expression(&token).unwrap();
    assert_eq!(
        e,
        Exp::List(Type::Int, vec![Exp::Int(1), Exp::Int(2)])
    );
}

#[test]
fn shadowing_uses_the_latest_binding() {
    let src = "let x: int = 1; let x: bool = true; let y: bool = x;";
    let a = parse(tokenize(src).unwrap()).unwrap();
    assert!(type_check(a).is_ok());
}

#[test]
fn comparisons_need_matching_operand_types() {
    let a = parse(tokenize("1 == true;").unwrap()).unwrap();
    assert_eq!(
        type_check(a),
        Err(TypeError::Mismatch {
            node: ErrorNode::RightOperand(Operation::Equal),
            expected: Type::Int,
            found: Type::Bool
        })
    );
    let b = parse(tokenize("\"a\" == \"b\";").unwrap()).unwrap();
    assert!(type_check(b).is_ok());
}

#[test]
fn hof_literal_takes_its_type_from_the_annotation() {
    let src = "let f: (int -> bool) = (a) { return a < 3; };";
    let a = parse(tokenize(src).unwrap()).unwrap();
    assert!(type_check(a).is_ok());
    let bad = "let f: (int -> bool) = (a) { return a + 3; };";
    let b = parse(tokenize(bad).unwrap()).unwrap();
    assert_eq!(
        type_check(b),
        Err(TypeError::Mismatch {
            node: ErrorNode::Assignment(String::from("f")),
            expected: Type::HigherOrderFunction(Box::new(Type::Int), Box::new(Type::Bool)),
            found: Type::HigherOrderFunction(Box::new(Type::Int), Box::new(Type::Int)),
        })
    );
}

#[test]
fn largest_and_overflowing_int_literals() {
    assert_eq!(
        tokenize("2147483647").unwrap(),
        vec![Token::Int(2147483647)]
    );
    // one past the largest literal is no integer, so it reads as a name
    assert_eq!(
        tokenize("2147483648").unwrap(),
        vec![Token::Var(String::from("2147483648"))]
    );
}

#[test]
fn nested_struct_literal_uses_declared_field_types() {
    let src = "struct Inner { a: int, } struct Outer { i: Inner, } \
               let o: Outer = { i: { a: 1, }, };";
    let a = parse(tokenize(src).unwrap()).unwrap();
    assert!(type_check(a).is_ok());
}

#[test]
fn call_argument_gets_its_declared_expected_type() {
    let src = "func first(l: [int],) -> int { return 0; } \
               let n: int = first([1, 2, 3]);";
    let a = parse(tokenize(src).unwrap()).unwrap();
    assert!(type_check(a).is_ok());
}

#[test]
fn struct_keyword_statement_builds_a_definition() {
    let token = tokenize("struct Foo { bar: int, baz: str, qux: bool, }").unwrap();
    let ast = parse(token).unwrap();
    match ast {
        AST::StmtNode(Statement::StructDef(d), _) => {
            assert_eq!(d.name, "Foo");
            assert_eq!(d.fields.len(), 3);
            assert_eq!(d.fields[0].name, "bar");
            assert_eq!(d.fields[0].var_type, Type::Int);
            assert_eq!(d.fields[2].var_type, Type::Bool);
        }
        _ => panic!("expected a struct definition"),
    }
}

#[test]
fn two_char_operator_needs_no_surrounding_space() {
    assert_eq!(
        tokenize(")->int").unwrap(),
        vec![
            Token::RightParen,
            Token::Output,
            Token::TypeName(Type::Int)
        ]
    );
    let src = "func f(a: int,)->int { return a; } let n: int = f(2);";
    let a = parse(tokenize(src).unwrap()).unwrap();
    assert!(type_check(a).is_ok());
}

#[test]
fn trailing_commas_are_tolerated_everywhere() {
    let with_commas = "struct P { a: int, b: int, } \
        func g(a: int, b: int,) -> int { return a + b; } \
        let p: P = { a: 1, b: 2, }; \
        let l: [int] = [1, 2, 3,]; \
        let n: int = g(1, 2,);";
    let without = "struct P { a: int, b: int } \
        func g(a: int, b: int) -> int { return a + b; } \
        let p: P = { a: 1, b: 2 }; \
        let l: [int] = [1, 2, 3]; \
        let n: int = g(1, 2);";
    let a = parse(tokenize(with_commas).unwrap()).unwrap();
    let b = parse(tokenize(without).unwrap()).unwrap();
    // the commas change nothing: both programs build the identical tree
    assert_eq!(a, b);
    assert!(type_check(a).is_ok());
}

#[test]
fn bare_expression_programs_parse() {
    // a flat operator expression is a complete program
    let ast = parse(tokenize("7 - 2 - 3").unwrap()).unwrap();
    match ast {
        AST::ExpNode(e, rest) => {
            assert!(matches!(*rest, AST::Leaf));
            let expected = Exp::Op(
                Operation::Subtract,
                Box::new(Exp::Op(
                    Operation::Subtract,
                    Box::new(Exp::Int(7)),
                    Box::new(Exp::Int(2)),
                )),
                Box::new(Exp::Int(3)),
            );
            assert_eq!(e, expected);
        }
        _ => panic!("expected a bare expression"),
    }
    // the sign the lexer defers comes back as the parser's unary rule
    let ast = parse(tokenize("-5").unwrap()).unwrap();
    match ast {
        AST::ExpNode(Exp::Negate(inner), _) => assert_eq!(*inner, Exp::Int(5)),
        _ => panic!("expected a negation"),
    }
}
