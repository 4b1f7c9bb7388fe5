use tinylang::token::Token;
use tinylang::tokenizer::{skip_whitespace, split_first_word, tokenize, tokenize_int, tokenize_str};
use tinylang::types::Type;

#[test]
fn tokenizer_tokenize_nothing() {
        assert_eq!(tokenize("").unwrap(), vec![])
    }

#[test]
fn tokenizer_tokenize_keyword_if() {
        assert_eq!(tokenize("if").unwrap(), vec![Token::If])
    }

#[test]
fn tokenizer_tokenize_keyword_elif() {
        assert_eq!(tokenize("elif").unwrap(), vec![Token::Elif])
    }

#[test]
fn tokenizer_tokenize_keyword_else() {
        assert_eq!(tokenize("else").unwrap(), vec![Token::Else])
    }

#[test]
fn tokenizer_tokenize_keyword_for() {
        assert_eq!(tokenize("for").unwrap(), vec![Token::For])
    }

#[test]
fn tokenizer_tokenize_keyword_in() {
        assert_eq!(tokenize("in").unwrap(), vec![Token::In])
    }

#[test]
fn tokenizer_tokenize_keyword_while() {
        assert_eq!(tokenize("while").unwrap(), vec![Token::While])
    }

#[test]
fn tokenizer_tokenize_keyword_function() {
        assert_eq!(tokenize("func").unwrap(), vec![Token::Function])
    }

#[test]
fn tokenizer_tokenize_keyword_output() {
        assert_eq!(tokenize("->").unwrap(), vec![Token::Output])
    }

#[test]
fn tokenizer_tokenize_keyword_return() {
        assert_eq!(tokenize("return").unwrap(), vec![Token::Return])
    }

#[test]
fn tokenizer_tokenize_keyword_let() {
        assert_eq!(tokenize("let").unwrap(), vec![Token::Let])
    }

#[test]
fn tokenizer_tokenize_keyword_assign() {
        assert_eq!(tokenize("=").unwrap(), vec![Token::Assign])
    }

#[test]
fn tokenizer_tokenize_keyword_type_void() {
        assert_eq!(tokenize("void").unwrap(), vec![Token::TypeName(Type::Void)])
    }

#[test]
fn tokenizer_tokenize_keyword_type_int() {
        assert_eq!(tokenize("int").unwrap(), vec![Token::TypeName(Type::Int)])
    }

#[test]
fn tokenizer_tokenize_keyword_type_str() {
        assert_eq!(tokenize("str").unwrap(), vec![Token::TypeName(Type::Str)])
    }

#[test]
fn tokenizer_tokenize_keyword_type_bool() {
        assert_eq!(tokenize("bool").unwrap(), vec![Token::TypeName(Type::Bool)])
    }

#[test]
fn tokenizer_tokenize_keyword_type_struct() {
        // not sure about this one
        assert_eq!(
            tokenize("struct foo").unwrap(),
            vec![Token::Struct, Token::Var(String::from("foo"))]
        )
    }

#[test]
fn tokenizer_tokenize_keyword_struct() {
        assert_eq!(tokenize("struct").unwrap(), vec![Token::Struct])
    }

#[test]
fn tokenizer_tokenize_keyword_int() {
        assert_eq!(tokenize("5").unwrap(), vec![Token::Int(5)])
    }

#[test]
fn tokenizer_tokenize_keyword_negative_int() {
        // the parser will firgure out that it's a negative int
        assert_eq!(tokenize("-5").unwrap(), vec![Token::Minus, Token::Int(5)])
    }

#[test]
fn tokenizer_tokenize_keyword_true() {
        assert_eq!(tokenize("true").unwrap(), vec![Token::Bool(true)])
    }

#[test]
fn tokenizer_tokenize_keyword_false() {
        assert_eq!(tokenize("false").unwrap(), vec![Token::Bool(false)])
    }

#[test]
fn tokenizer_tokenize_keyword_left_curly() {
        assert_eq!(tokenize("{").unwrap(), vec![Token::LeftCurly])
    }

#[test]
fn tokenizer_tokenize_keyword_right_curly() {
        assert_eq!(tokenize("}").unwrap(), vec![Token::RightCurly])
    }

#[test]
fn tokenizer_tokenize_keyword_left_brace() {
        assert_eq!(tokenize("[").unwrap(), vec![Token::LeftBrace])
    }

#[test]
fn tokenizer_tokenize_keyword_right_brace() {
        assert_eq!(tokenize("]").unwrap(), vec![Token::RightBrace])
    }

#[test]
fn tokenizer_tokenize_keyword_left_paren() {
        assert_eq!(tokenize("(").unwrap(), vec![Token::LeftParen])
    }

#[test]
fn tokenizer_tokenize_keyword_right_paren() {
        assert_eq!(tokenize(")").unwrap(), vec![Token::RightParen])
    }

#[test]
fn tokenizer_tokenize_keyword_dot() {
        assert_eq!(tokenize(".").unwrap(), vec![Token::Dot])
    }

#[test]
fn tokenizer_tokenize_keyword_comma() {
        assert_eq!(tokenize(",").unwrap(), vec![Token::Comma])
    }

#[test]
fn tokenizer_tokenize_keyword_colon() {
        assert_eq!(tokenize(":").unwrap(), vec![Token::Colon])
    }

#[test]
fn tokenizer_tokenize_keyword_semicolon() {
        assert_eq!(tokenize(";").unwrap(), vec![Token::Semicolon])
    }

#[test]
fn tokenizer_tokenize_keyword_minus() {
        assert_eq!(tokenize("-").unwrap(), vec![Token::Minus])
    }

#[test]
fn tokenizer_tokenize_keyword_plus() {
        assert_eq!(tokenize("+").unwrap(), vec![Token::Plus])
    }

#[test]
fn tokenizer_tokenize_keyword_divide() {
        assert_eq!(tokenize("/").unwrap(), vec![Token::Divide])
    }

#[test]
fn tokenizer_tokenize_keyword_multiply() {
        assert_eq!(tokenize("*").unwrap(), vec![Token::Multiply])
    }

#[test]
fn tokenizer_tokenize_keyword_modulo() {
        assert_eq!(tokenize("%").unwrap(), vec![Token::Modulo])
    }

#[test]
fn tokenizer_tokenize_keyword_and() {
        assert_eq!(tokenize("&&").unwrap(), vec![Token::And])
    }

#[test]
fn tokenizer_tokenize_keyword_or() {
        assert_eq!(tokenize("||").unwrap(), vec![Token::Or])
    }

#[test]
fn tokenizer_tokenize_keyword_not() {
        assert_eq!(tokenize("!").unwrap(), vec![Token::Not])
    }

#[test]
fn tokenizer_tokenize_keyword_greater_than() {
        assert_eq!(tokenize(">").unwrap(), vec![Token::GreaterThan])
    }

#[test]
fn tokenizer_tokenize_keyword_less_than() {
        assert_eq!(tokenize("<").unwrap(), vec![Token::LessThan])
    }

#[test]
fn tokenizer_tokenize_keyword_greater_equal() {
        assert_eq!(tokenize(">=").unwrap(), vec![Token::GreaterEqual])
    }

#[test]
fn tokenizer_tokenize_keyword_less_equal() {
        assert_eq!(tokenize("<=").unwrap(), vec![Token::LessEqual])
    }

#[test]
fn tokenizer_tokenize_keyword_equal() {
        assert_eq!(tokenize("==").unwrap(), vec![Token::Equal])
    }

#[test]
fn tokenizer_tokenize_keyword_not_equal() {
        assert_eq!(tokenize("!=").unwrap(), vec![Token::NotEqual])
    }

#[test]
fn tokenizer_tokenize_weird_int() {
        assert_eq!(tokenize("1_000_000").unwrap(), vec![Token::Int(1000000)])
    }

#[test]
fn tokenizer_tokenize_weird_var_name_1() {
        assert_eq!(tokenize("ifelse").unwrap(), vec![Token::Var(String::from("ifelse"))])
    }

#[test]
fn tokenizer_tokenize_weird_var_name_2() {
        assert_eq!(tokenize("If").unwrap(), vec![Token::Var(String::from("If"))])
    }

#[test]
fn tokenizer_tokenize_weird_var_name_3() {
        assert_eq!(tokenize("_").unwrap(), vec![Token::Var(String::from("_"))])
    }

#[test]
fn tokenizer_tokenize_weird_var_name_4() {
        assert_eq!(
            tokenize("under_score").unwrap(),
            vec![Token::Var(String::from("under_score"))]
        )
    }

#[test]
fn tokenizer_tokenize_weird_var_name_5() {
        assert_eq!(
            tokenize("_underscore").unwrap(),
            vec![Token::Var(String::from("_underscore"))]
        )
    }

#[test]
fn tokenizer_tokenize_weird_var_name_6() {
        assert_eq!(
            tokenize("underscore_").unwrap(),
            vec![Token::Var(String::from("underscore_"))]
        )
    }

#[test]
fn tokenizer_tokenize_weird_var_name_7() {
        assert_eq!(tokenize("num1").unwrap(), vec![Token::Var(String::from("num1"))])
    }

#[test]
fn tokenizer_tokenize_weird_var_name_8() {
        assert_eq!(tokenize("1num").unwrap(), vec![Token::Var(String::from("1num"))])
    }

#[test]
fn tokenizer_tokenize_weird_var_name_9() {
        assert_eq!(
            tokenize("123_this_is_a_var").unwrap(),
            vec![Token::Var(String::from("123_this_is_a_var"))]
        )
    }

#[test]
#[should_panic]
fn tokenizer_tokenize_illegal_var_name_1() {
        assert_eq!(tokenize("&").unwrap(), vec![])
    }

#[test]
#[should_panic]
fn tokenizer_tokenize_illegal_var_name_2() {
        assert_eq!(tokenize("|||").unwrap(), vec![])
    }

#[test]
#[should_panic]
fn tokenizer_tokenize_illegal_var_name_3() {
        assert_eq!(tokenize("?").unwrap(), vec![])
    }

#[test]
fn tokenizer_tokenize_1_plus_2_no_whitespace() {
        assert_eq!(
            tokenize("1+2").unwrap(),
            vec![Token::Int(1), Token::Plus, Token::Int(2),]
        )
    }

#[test]
fn tokenizer_tokenize_1_plus_2_single_space() {
        assert_eq!(
            tokenize("1 + 2").unwrap(),
            vec![Token::Int(1), Token::Plus, Token::Int(2),]
        )
    }

#[test]
fn tokenizer_tokenize_1_plus_2_single_space_front() {
        assert_eq!(
            tokenize(" 1+2").unwrap(),
            vec![Token::Int(1), Token::Plus, Token::Int(2),]
        )
    }

#[test]
fn tokenizer_tokenize_1_plus_2_single_tab_front() {
        assert_eq!(
            tokenize("	1+2").unwrap(),
            vec![Token::Int(1), Token::Plus, Token::Int(2),]
        )
    }

#[test]
fn tokenizer_tokenize_1_plus_2_single_newline_front() {
        assert_eq!(
            tokenize(
                "
					 1+2"
            ).unwrap(),
            vec![Token::Int(1), Token::Plus, Token::Int(2),]
        )
    }

#[test]
fn tokenizer_tokenize_1_plus_2_single_space_back() {
        assert_eq!(
            tokenize("1+2 ").unwrap(),
            vec![Token::Int(1), Token::Plus, Token::Int(2),]
        )
    }

#[test]
fn tokenizer_tokenize_1_plus_2_single_tab_back() {
        assert_eq!(
            tokenize("1+2	").unwrap(),
            vec![Token::Int(1), Token::Plus, Token::Int(2),]
        )
    }

#[test]
fn tokenizer_tokenize_1_plus_2_single_newline_back() {
        assert_eq!(
            tokenize(
                "1+2
					 "
            ).unwrap(),
            vec![Token::Int(1), Token::Plus, Token::Int(2),]
        )
    }

#[test]
fn tokenizer_tokenize_1_plus_2_single_space_wrapped() {
        assert_eq!(
            tokenize(" 1 + 2 ").unwrap(),
            vec![Token::Int(1), Token::Plus, Token::Int(2),]
        )
    }

#[test]
fn tokenizer_tokenize_1_plus_2_too_much_whitespace() {
        assert_eq!(
            tokenize(
                "	1
					 +
					 2						 "
            ).unwrap(),
            vec![Token::Int(1), Token::Plus, Token::Int(2),]
        )
    }

#[test]
fn tokenizer_tokenize_int_assignment() {
        assert_eq!(
            tokenize("let x: int = 32;").unwrap(),
            vec![
                Token::Let,
                Token::Var(String::from("x")),
                Token::Colon,
                Token::TypeName(Type::Int),
                Token::Assign,
                Token::Int(32),
                Token::Semicolon,
            ]
        )
    }

#[test]
fn tokenizer_tokenize_assignment_whitespace_termination() {
        assert_eq!(
            tokenize("let x:int=32; ").unwrap(),
            vec![
                Token::Let,
                Token::Var(String::from("x")),
                Token::Colon,
                Token::TypeName(Type::Int),
                Token::Assign,
                Token::Int(32),
                Token::Semicolon,
            ]
        )
    }

#[test]
fn tokenizer_tokenize_assignment_min_whitespace() {
        assert_eq!(
            tokenize("let x:int=32;").unwrap(),
            vec![
                Token::Let,
                Token::Var(String::from("x")),
                Token::Colon,
                Token::TypeName(Type::Int),
                Token::Assign,
                Token::Int(32),
                Token::Semicolon,
            ]
        )
    }

#[test]
fn tokenizer_tokenize_assignment_no_whitespace() {
        assert_eq!(
            tokenize("letx:int=32;").unwrap(),
            vec![
                Token::Var(String::from("letx")),
                Token::Colon,
                Token::TypeName(Type::Int),
                Token::Assign,
                Token::Int(32),
                Token::Semicolon,
            ]
        )
    }

#[test]
fn tokenizer_tokenize_str_assignment() {
        assert_eq!(
            tokenize("let x: str = \"Hello World!\";").unwrap(),
            vec![
                Token::Let,
                Token::Var(String::from("x")),
                Token::Colon,
                Token::TypeName(Type::Str),
                Token::Assign,
                Token::Str(String::from("Hello World!")),
                Token::Semicolon,
            ]
        )
    }

#[test]
fn tokenizer_tokenize_bool_assignment() {
        assert_eq!(
            tokenize("let x: bool = true;").unwrap(),
            vec![
                Token::Let,
                Token::Var(String::from("x")),
                Token::Colon,
                Token::TypeName(Type::Bool),
                Token::Assign,
                Token::Bool(true),
                Token::Semicolon,
            ]
        )
    }

#[test]
fn tokenizer_tokenize_void_assignment() {
        assert_eq!(
            tokenize("let x: void = ();").unwrap(),
            vec![
                Token::Let,
                Token::Var(String::from("x")),
                Token::Colon,
                Token::TypeName(Type::Void),
                Token::Assign,
                Token::LeftParen,
                Token::RightParen,
                Token::Semicolon,
            ]
        )
    }

#[test]
fn tokenizer_tokenize_struct_assignment() {
        assert_eq!(
            tokenize(
                "let x: foo = {
					bar: 32,
					baz: \"Hello World\",
				};"
            ).unwrap(),
            vec![
                Token::Let,
                Token::Var(String::from("x")),
                Token::Colon,
                Token::Var(String::from("foo")),
                Token::Assign,
                Token::LeftCurly,
                Token::Var(String::from("bar")),
                Token::Colon,
                Token::Int(32),
                Token::Comma,
                Token::Var(String::from("baz")),
                Token::Colon,
                Token::Str(String::from("Hello World")),
                Token::Comma,
                Token::RightCurly,
                Token::Semicolon,
            ]
        )
    }

#[test]
fn tokenizer_tokenize_list_assignment() {
        assert_eq!(
            tokenize("let x: [int] = [32, 17, -5,];").unwrap(),
            vec![
                Token::Let,
                Token::Var(String::from("x")),
                Token::Colon,
                Token::LeftBrace,
                Token::TypeName(Type::Int),
                Token::RightBrace,
                Token::Assign,
                Token::LeftBrace,
                Token::Int(32),
                Token::Comma,
                Token::Int(17),
                Token::Comma,
                Token::Minus,
                Token::Int(5),
                Token::Comma,
                Token::RightBrace,
                Token::Semicolon,
            ]
        )
    }

#[test]
fn tokenizer_tokenize_higher_order_func_assignment() {
        assert_eq!(
            tokenize("let x: (int -> int) = (a) { return 1 + a; };").unwrap(),
            vec![
                Token::Let,
                Token::Var(String::from("x")),
                Token::Colon,
                Token::LeftParen,
                Token::TypeName(Type::Int),
                Token::Output,
                Token::TypeName(Type::Int),
                Token::RightParen,
                Token::Assign,
                Token::LeftParen,
                Token::Var(String::from("a")),
                Token::RightParen,
                Token::LeftCurly,
                Token::Return,
                Token::Int(1),
                Token::Plus,
                Token::Var(String::from("a")),
                Token::Semicolon,
                Token::RightCurly,
                Token::Semicolon,
            ]
        )
    }

#[test]
fn tokenizer_tokenize_struct_definition() {
        assert_eq!(
            tokenize(
                "struct Foo {
						bar: int,
						baz: str,
						qux: bool,
					}"
            ).unwrap(),
            vec![
                Token::Struct,
                Token::Var(String::from("Foo")),
                Token::LeftCurly,
                Token::Var(String::from("bar")),
                Token::Colon,
                Token::TypeName(Type::Int),
                Token::Comma,
                Token::Var(String::from("baz")),
                Token::Colon,
                Token::TypeName(Type::Str),
                Token::Comma,
                Token::Var(String::from("qux")),
                Token::Colon,
                Token::TypeName(Type::Bool),
                Token::Comma,
                Token::RightCurly,
            ]
        )
    }

#[test]
fn tokenizer_tokenize_function_definition() {
        assert_eq!(
            tokenize(
                "func bad_adder(a: int, b: int,) -> int {
					let x: int = a;
					let y: int = b;
					let result: int = a + b;
					return result;
				}"
            ).unwrap(),
            vec![
                Token::Function,
                Token::Var(String::from("bad_adder")),
                Token::LeftParen,
                Token::Var(String::from("a")),
                Token::Colon,
                Token::TypeName(Type::Int),
                Token::Comma,
                Token::Var(String::from("b")),
                Token::Colon,
                Token::TypeName(Type::Int),
                Token::Comma,
                Token::RightParen,
                Token::Output,
                Token::TypeName(Type::Int),
                Token::LeftCurly,
                Token::Let,
                Token::Var(String::from("x")),
                Token::Colon,
                Token::TypeName(Type::Int),
                Token::Assign,
                Token::Var(String::from("a")),
                Token::Semicolon,
                Token::Let,
                Token::Var(String::from("y")),
                Token::Colon,
                Token::TypeName(Type::Int),
                Token::Assign,
                Token::Var(String::from("b")),
                Token::Semicolon,
                Token::Let,
                Token::Var(String::from("result")),
                Token::Colon,
                Token::TypeName(Type::Int),
                Token::Assign,
                Token::Var(String::from("a")),
                Token::Plus,
                Token::Var(String::from("b")),
                Token::Semicolon,
                Token::Return,
                Token::Var(String::from("result")),
                Token::Semicolon,
                Token::RightCurly,
            ]
        )
    }

#[test]
fn tokenizer_tokenize_function_call() {
        assert_eq!(
            tokenize("foo(x, y);").unwrap(),
            vec![
                Token::Var(String::from("foo")),
                Token::LeftParen,
                Token::Var(String::from("x")),
                Token::Comma,
                Token::Var(String::from("y")),
                Token::RightParen,
                Token::Semicolon,
            ]
        )
    }

#[test]
fn tokenizer_tokenize_str_one_word() {
        assert_eq!(
            tokenize_str("Hello\""),
            Some((Token::Str(String::from("Hello")), ""))
        )
    }

#[test]
fn tokenizer_tokenize_str_two_words() {
        assert_eq!(
            tokenize_str("Hello World\""),
            Some((Token::Str(String::from("Hello World")), ""))
        )
    }

#[test]
fn tokenizer_tokenize_str_words_and_remainder() {
        assert_eq!(
            tokenize_str("Hello World\"; let x = 5;"),
            Some((Token::Str(String::from("Hello World")), "; let x = 5;"))
        )
    }

#[test]
fn tokenizer_tokenize_str_empty() {
        assert_eq!(tokenize_str(""), None)
    }

#[test]
fn tokenizer_tokenize_not_a_string() {
        assert_eq!(tokenize_str("let x;"), None)
    }

#[test]
fn tokenizer_tokenize_lots_of_ints() {
        for x in -500..500 {
            let s = x.to_string();
            assert_eq!(tokenize_int(&s), Some(Token::Int(x)))
        }
    }

#[test]
fn tokenizer_tokenize_not_an_int() {
        assert_eq!(tokenize_int("let x = 5;"), None)
    }

#[test]
fn skip_whitespace_empty() {
        assert_eq!(skip_whitespace(""), "")
    }

#[test]
fn skip_whitespace_no_whitespace() {
        assert_eq!(skip_whitespace("HelloWorld"), "HelloWorld")
    }

#[test]
fn skip_whitespace_proper_sentence() {
        assert_eq!(
            skip_whitespace("The mitochondria is the powerhouse of the cell!"),
            "The mitochondria is the powerhouse of the cell!"
        )
    }

#[test]
fn skip_whitespace_single_space() {
        assert_eq!(skip_whitespace(" word"), "word")
    }

#[test]
fn skip_whitespace_many_spaces() {
        assert_eq!(skip_whitespace("       word"), "word")
    }

#[test]
fn skip_whitespace_tabs() {
        assert_eq!(skip_whitespace("		word"), "word")
    }

#[test]
fn skip_whitespace_newlines() {
        assert_eq!(
            skip_whitespace(
                "



                            word"
            ),
            "word"
        )
    }

#[test]
fn get_one_word() {
        assert_eq!(split_first_word("Hello World"), ("Hello", " World"));
    }

#[test]
fn get_no_word_1() {
        assert_eq!(split_first_word(""), ("", ""));
    }

#[test]
fn get_no_word_2() {
        assert_eq!(split_first_word(" "), ("", " "));
    }

#[test]
fn get_no_word_3() {
        let s = " cant touch this";
        for _ in 0..100 {
            assert_eq!(split_first_word(s), ("", s));
        }
    }

#[test]
fn tokenizer_tokenize_while_with_condition() {
        assert_eq!(
            tokenize(
                "while (x != 5){
        return true; }"
            ).unwrap(),
            vec![
                Token::While,
                Token::LeftParen,
                Token::Var(String::from("x")),
                Token::NotEqual,
                Token::Int(5),
                Token::RightParen,
                Token::LeftCurly,
                Token::Return,
                Token::Bool(true),
                Token::Semicolon,
                Token::RightCurly,
            ]
        );
    }

#[test]
fn tokenizer_tokenize_for_loop() {
        assert_eq!(
            tokenize("for items in list return items").unwrap(),
            vec![
                Token::For,
                Token::Var(String::from("items")),
                Token::In,
                Token::Var(String::from("list")),
                Token::Return,
                Token::Var(String::from("items")),
            ]
        );
    }

#[test]
fn tokenizer_tokenize_if_else() {
        assert_eq!(
            tokenize(
                "if(x = 1){
                             y = true;
                         } else y = false;"
            ).unwrap(),
            vec![
                Token::If,
                Token::LeftParen,
                Token::Var(String::from("x")),
                Token::Assign,
                Token::Int(1),
                Token::RightParen,
                Token::LeftCurly,
                Token::Var(String::from("y")),
                Token::Assign,
                Token::Bool(true),
                Token::Semicolon,
                Token::RightCurly,
                Token::Else,
                Token::Var(String::from("y")),
                Token::Assign,
                Token::Bool(false),
                Token::Semicolon
            ]
        );
    }
