use lox::ast::{Ast, AstExpr, AstStmt, ParseError};
use lox::model::{Lexeme, Token};
use lox::listing::{listing, ListingPiece};
use lox::parser::{ParseStop, Parser, ParserBuilder};
use lox::render::Piece;
use lox::span::Span;

/// The text of a number literal's value, as Lox shows numbers.
fn number_text(raw: &str) -> String {
    let v: f64 = raw.parse().unwrap();
    if v == v.trunc() {
        format!("{v}.0")
    } else {
        format!("{v}")
    }
}

/// Joins a printed form, filling in the numbers.
fn show(pieces: Vec<Piece>) -> String {
    pieces
        .into_iter()
        .map(|p| match p {
            Piece::Text(t) => t,
            Piece::Number(raw) => number_text(&raw),
        })
        .collect()
}

fn create_token(lexeme: Lexeme) -> Token {
    Token::new(lexeme, Span::new(1, 0, 1))
}

#[test]
fn parser_test_ast_display_print_statement() {
    let expr = AstExpr::Terminal(create_token(Lexeme::True));
    let print_stmt = Ast::Statement(AstStmt::Print(expr));
    assert_eq!(show(print_stmt.display_pieces()), "print true;");
}

#[test]
fn parser_test_ast_display_return_statement_with_value() {
    let expr = AstExpr::Terminal(create_token(Lexeme::Number("42".to_string())));
    let return_stmt = Ast::Statement(AstStmt::Return(Some(Box::new(expr))));
    assert_eq!(show(return_stmt.display_pieces()), "return 42.0;");
}

#[test]
fn parser_test_ast_display_return_statement_without_value() {
    let return_stmt = Ast::Statement(AstStmt::Return(None));
    assert_eq!(show(return_stmt.display_pieces()), "return;");
}

#[test]
fn parser_test_ast_display_group() {
    let expr = AstExpr::Terminal(create_token(Lexeme::True));
    let group = Ast::Expression(AstExpr::Group(Box::new(expr)));
    assert_eq!(show(group.display_pieces()), "(group true)");
}

#[test]
fn parser_test_ast_display_binary_expression() {
    let left = AstExpr::Terminal(create_token(Lexeme::Number("1".to_string())));
    let right = AstExpr::Terminal(create_token(Lexeme::Number("2".to_string())));
    let op = create_token(Lexeme::Plus);
    let binary = AstExpr::Binary {
        op,
        left: Box::new(left),
        right: Box::new(right),
    };
    assert_eq!(show(binary.display_pieces()), "(+ 1.0 2.0)");
}

#[test]
fn parser_test_ast_display_unary_expression() {
    let expr = AstExpr::Terminal(create_token(Lexeme::Number("5".to_string())));
    let op = create_token(Lexeme::Minus);
    let unary = Ast::Expression(AstExpr::Unary {
        op,
        exp: Box::new(expr),
    });
    assert_eq!(show(unary.display_pieces()), "(- 5.0)");
}

#[test]
fn parser_test_ast_display_terminal_literals() {
    let true_ast = Ast::Expression(AstExpr::Terminal(create_token(Lexeme::True)));
    assert_eq!(show(true_ast.display_pieces()), "true");

    let false_ast = Ast::Expression(AstExpr::Terminal(create_token(Lexeme::False)));
    assert_eq!(show(false_ast.display_pieces()), "false");

    let nil_ast = Ast::Expression(AstExpr::Terminal(create_token(Lexeme::Nil)));
    assert_eq!(show(nil_ast.display_pieces()), "nil");

    let number_ast = Ast::Expression(AstExpr::Terminal(create_token(Lexeme::Number("1.23".to_string()))));
    assert_eq!(show(number_ast.display_pieces()), "1.23");

    let string_ast = Ast::Expression(AstExpr::Terminal(create_token(Lexeme::String(
        "hello".to_string(),
    ))));
    assert_eq!(show(string_ast.display_pieces()), "hello");

    let identifier_ast = Ast::Expression(AstExpr::Terminal(create_token(Lexeme::Identifier(
        "var_name".to_string(),
    ))));
    assert_eq!(show(identifier_ast.display_pieces()), "var_name");
}

#[test]
fn parser_test_parser_new() {
    let source = "print 42;";
    let parser = Parser::new(source, true, true);
    assert_eq!(parser.source, source);
}

#[test]
fn parser_test_parse_empty_source() {
    let parser = Parser::new("", true, true);
    let result = parser.parse();
    assert!(result.is_ok());
    assert_eq!(result.unwrap(), vec![]);
}

#[test]
fn parser_test_parse_simple_print_statement() {
    let parser = Parser::new("print 42;", false, true);
    let result = parser.parse();
    assert!(result.is_ok());
    let ast = result.unwrap();
    assert_eq!(ast.len(), 1);
    assert_eq!(show(ast[0].display_pieces()), "print 42.0;");
}

#[test]
fn parser_test_parse_return_statement_with_value() {
    let parser = Parser::new("return 123;", false, true);
    let result = parser.parse();
    assert!(result.is_ok());
    let ast = result.unwrap();
    assert_eq!(ast.len(), 1);
    assert_eq!(show(ast[0].display_pieces()), "return 123.0;");
}

#[test]
fn parser_test_parse_return_statement_without_value() {
    let parser = Parser::new("return;", false, true);
    let result = parser.parse();
    assert!(result.is_ok());
    let ast = result.unwrap();
    assert_eq!(ast.len(), 1);
    assert_eq!(show(ast[0].display_pieces()), "return;");
}

#[test]
fn parser_test_parse_expression_statement() {
    let parser = Parser::new("42;", false, true);
    let result = parser.parse();
    assert!(result.is_ok());
    let ast = result.unwrap();
    assert_eq!(ast.len(), 1);
    assert_eq!(show(ast[0].display_pieces()), "42.0");
}

#[test]
fn parser_test_parse_binary_expression() {
    let parser = Parser::new("1 + 2;", false, true);
    let result = parser.parse();
    assert!(result.is_ok());
    let ast = result.unwrap();
    assert_eq!(ast.len(), 1);
    assert_eq!(show(ast[0].display_pieces()), "(+ 1.0 2.0)");
}

#[test]
fn parser_test_parse_unary_expression() {
    let parser = Parser::new("-5;", false, true);
    let result = parser.parse();
    assert!(result.is_ok());
    let ast = result.unwrap();
    assert_eq!(ast.len(), 1);
    assert_eq!(show(ast[0].display_pieces()), "(- 5.0)");
}

#[test]
fn parser_test_parse_grouped_expression() {
    let parser = Parser::new("(42);", false, true);
    let result = parser.parse();
    assert!(result.is_ok());
    let ast = result.unwrap();
    assert_eq!(ast.len(), 1);
    assert_eq!(show(ast[0].display_pieces()), "(group 42.0)");
}

#[test]
fn parser_test_parse_equality_expression() {
    let parser = Parser::new("1 == 2;", false, true);
    let result = parser.parse();
    assert!(result.is_ok());
    let ast = result.unwrap();
    assert_eq!(ast.len(), 1);
    assert_eq!(show(ast[0].display_pieces()), "(== 1.0 2.0)");

    let parser = Parser::new("true != false;", false, true);
    let result = parser.parse();
    assert!(result.is_ok());
    let ast = result.unwrap();
    assert_eq!(ast.len(), 1);
    assert_eq!(show(ast[0].display_pieces()), "(!= true false)");
}

#[test]
fn parser_test_parse_comparison_expression() {
    let parser = Parser::new("5 > 3;", false, true);
    let result = parser.parse();
    assert!(result.is_ok());
    let ast = result.unwrap();
    assert_eq!(ast.len(), 1);
    assert_eq!(show(ast[0].display_pieces()), "(> 5.0 3.0)");

    let parser = Parser::new("2 <= 4;", false, true);
    let result = parser.parse();
    assert!(result.is_ok());
    let ast = result.unwrap();
    assert_eq!(ast.len(), 1);
    assert_eq!(show(ast[0].display_pieces()), "(<= 2.0 4.0)");
}

#[test]
fn parser_test_parse_factor_expression() {
    let parser = Parser::new("6 * 7;", false, true);
    let result = parser.parse();
    assert!(result.is_ok());
    let ast = result.unwrap();
    assert_eq!(ast.len(), 1);
    assert_eq!(show(ast[0].display_pieces()), "(* 6.0 7.0)");

    let parser = Parser::new("8 / 2;", false, true);
    let result = parser.parse();
    assert!(result.is_ok());
    let ast = result.unwrap();
    assert_eq!(ast.len(), 1);
    assert_eq!(show(ast[0].display_pieces()), "(/ 8.0 2.0)");
}

#[test]
fn parser_test_parse_complex_expression() {
    let parser = Parser::new("1 + 2 * 3;", false, true);
    let result = parser.parse();
    assert!(result.is_ok());
    let ast = result.unwrap();
    assert_eq!(ast.len(), 1);
    assert_eq!(show(ast[0].display_pieces()), "(+ 1.0 (* 2.0 3.0))");
}

#[test]
fn parser_test_parse_multiple_statements() {
    let parser = Parser::new("print 1; return 2;", false, true);
    let result = parser.parse();
    assert!(result.is_ok());
    let ast = result.unwrap();
    assert_eq!(ast.len(), 2);
    assert_eq!(show(ast[0].display_pieces()), "print 1.0;");
    assert_eq!(show(ast[1].display_pieces()), "return 2.0;");
}

#[test]
fn parser_test_parse_error_missing_semicolon() {
    let parser = Parser::new("print 42", true, true);
    let result = parser.parse();
    assert!(result.is_err());
}

#[test]
fn parser_test_parse_error_missing_closing_paren() {
    let parser = Parser::new("(42;", true, true);
    let result = parser.parse();
    assert!(result.is_err());
}

#[test]
fn parser_test_parse_error_unexpected_eof() {
    let parser = Parser::new("print", true, true);
    let result = parser.parse();
    assert!(result.is_err());
}

#[test]
fn parser_test_expression_type_display() {
    let left = AstExpr::Terminal(create_token(Lexeme::Number("1".to_string())));
    let right = AstExpr::Terminal(create_token(Lexeme::Number("2".to_string())));
    let op = create_token(Lexeme::Plus);
    let binary = AstExpr::Binary {
        op,
        left: Box::new(left),
        right: Box::new(right),
    };
    assert_eq!(show(binary.display_pieces()), "(+ 1.0 2.0)");

    let expr = AstExpr::Terminal(create_token(Lexeme::Number("5".to_string())));
    let op = create_token(Lexeme::Minus);
    let unary = AstExpr::Unary {
        op,
        exp: Box::new(expr),
    };
    assert_eq!(show(unary.display_pieces()), "(- 5.0)");
}

#[test]
fn parser_test_parse_variable_declaration_without_initializer() {
    let parser = Parser::new("var x;", false, true);
    let result = parser.parse();
    assert!(result.is_ok());
    let ast = result.unwrap();
    assert_eq!(ast.len(), 1);
    assert_eq!(show(ast[0].display_pieces()), "var x;");
}

#[test]
fn parser_test_parse_variable_declaration_with_initializer() {
    let parser = Parser::new("var x = 42;", false, true);
    let result = parser.parse();
    assert!(result.is_ok());
    let ast = result.unwrap();
    assert_eq!(ast.len(), 1);
    assert_eq!(show(ast[0].display_pieces()), "var x = 42.0;");
}

#[test]
fn parser_test_parse_assignment_expression() {
    let parser = Parser::new("x = 10;", false, true);
    let result = parser.parse();
    assert!(result.is_ok());
    let ast = result.unwrap();
    assert_eq!(ast.len(), 1);
    assert_eq!(show(ast[0].display_pieces()), "x = 10.0");
}

#[test]
fn parser_test_parse_logical_or_expression() {
    let parser = Parser::new("true or false;", false, true);
    let result = parser.parse();
    assert!(result.is_ok());
    let ast = result.unwrap();
    assert_eq!(ast.len(), 1);
    assert_eq!(show(ast[0].display_pieces()), "(or true false)");
}

#[test]
fn parser_test_parse_logical_and_expression() {
    let parser = Parser::new("true and false;", false, true);
    let result = parser.parse();
    assert!(result.is_ok());
    let ast = result.unwrap();
    assert_eq!(ast.len(), 1);
    assert_eq!(show(ast[0].display_pieces()), "(and true false)");
}

#[test]
fn parser_test_parse_if_statement() {
    let parser = Parser::new("if (true) print 42;", false, true);
    let result = parser.parse();
    assert!(result.is_ok());
    let ast = result.unwrap();
    assert_eq!(ast.len(), 1);
    assert_eq!(show(ast[0].display_pieces()), "if (group true) print 42.0;");
}

#[test]
fn parser_test_parse_if_else_statement() {
    let parser = Parser::new("if (false) print 1; else print 2;", false, true);
    let result = parser.parse();
    assert!(result.is_ok());
    let ast = result.unwrap();
    assert_eq!(ast.len(), 1);
    assert_eq!(
        show(ast[0].display_pieces()),
        "if (group false) print 1.0; else print 2.0;"
    );
}

#[test]
fn parser_test_parse_while_statement() {
    let parser = Parser::new("while (true) print 42;", false, true);
    let result = parser.parse();
    assert!(result.is_ok());
    let ast = result.unwrap();
    assert_eq!(ast.len(), 1);
    assert_eq!(show(ast[0].display_pieces()), "while (group true) print 42.0;");
}

#[test]
fn parser_test_parse_empty_block() {
    let parser = Parser::new("{}", false, true);
    let result = parser.parse();
    assert!(result.is_ok());
    let ast = result.unwrap();
    assert_eq!(ast.len(), 1);
    assert_eq!(show(ast[0].display_pieces()), "{\n}");
}

#[test]
fn parser_test_parse_block_with_statements() {
    let parser = Parser::new("{ print 1; print 2; }", false, true);
    let result = parser.parse();
    assert!(result.is_ok());
    let ast = result.unwrap();
    assert_eq!(ast.len(), 1);
    assert_eq!(show(ast[0].display_pieces()), "{\nprint 1.0;\nprint 2.0;\n}");
}

#[test]
fn parser_test_parse_nested_blocks() {
    let parser = Parser::new("{ { print 42; } }", false, true);
    let result = parser.parse();
    assert!(result.is_ok());
    let ast = result.unwrap();
    assert_eq!(ast.len(), 1);
    assert_eq!(show(ast[0].display_pieces()), "{\n{\nprint 42.0;\n}\n}");
}

#[test]
fn parser_test_parse_block_with_variable_declaration() {
    let parser = Parser::new("{ var x = 10; print x; }", false, true);
    let result = parser.parse();
    assert!(result.is_ok());
    let ast = result.unwrap();
    assert_eq!(ast.len(), 1);
    assert_eq!(show(ast[0].display_pieces()), "{\nvar x = 10.0;\nprint x;\n}");
}

#[test]
fn test_parse_function_call_no_args() {
    let parser = Parser::new("foo();", false, true);
    let result = parser.parse();
    assert!(result.is_ok());
    let ast = result.unwrap();
    assert_eq!(ast.len(), 1);
    assert_eq!(show(ast[0].display_pieces()), "foo([])");
}

#[test]
fn test_parse_function_call_single_arg() {
    let parser = Parser::new("foo(42);", false, true);
    let result = parser.parse();
    assert!(result.is_ok());
    let ast = result.unwrap();
    assert_eq!(ast.len(), 1);
    assert_eq!(show(ast[0].display_pieces()), "foo([42.0])");
}

#[test]
fn test_parse_function_call_multiple_args() {
    let parser = Parser::new("foo(42, \"hello\", true);", false, true);
    let result = parser.parse();
    assert!(result.is_ok());
    let ast = result.unwrap();
    assert_eq!(ast.len(), 1);
    assert_eq!(show(ast[0].display_pieces()), "foo([42.0, hello, true])");
}

#[test]
fn test_parse_function_call_nested() {
    let parser = Parser::new("foo(bar(baz));", false, true);
    let result = parser.parse();
    assert!(result.is_ok());
    let ast = result.unwrap();
    assert_eq!(ast.len(), 1);
    assert_eq!(show(ast[0].display_pieces()), "foo([bar([baz])])");
}

#[test]
fn test_parse_function_call_complex_args() {
    let parser = Parser::new("foo(1 + 2, bar(3), \"test\");", false, true);
    let result = parser.parse();
    assert!(result.is_ok());
    let ast = result.unwrap();
    assert_eq!(ast.len(), 1);
    assert_eq!(show(ast[0].display_pieces()), "foo([(+ 1.0 2.0), bar([3.0]), test])");
}

#[test]
fn test_ast_display_call_expression() {
    let args = vec![
        AstExpr::Terminal(create_token(Lexeme::Number("42".to_string()))),
        AstExpr::Terminal(create_token(Lexeme::String("hello".to_string()))),
    ];
    let call = AstExpr::Call {
        func: "foo".to_string(),
        args,
        site: Span::new(1, 0, 1),
    };
    assert_eq!(show(call.display_pieces()), "foo([42.0, hello])");
}

#[test]
fn test_ast_display_call_no_args() {
    let call = AstExpr::Call {
        func: "foo".to_string(),
        args: vec![],
        site: Span::new(1, 0, 1),
    };
    assert_eq!(show(call.display_pieces()), "foo([])");
}

#[test]
fn test_ast_display_nested_call() {
    let inner_args = vec![AstExpr::Terminal(create_token(Lexeme::Number("5".to_string())))];
    let inner_call = AstExpr::Call {
        func: "bar".to_string(),
        args: inner_args,
        site: Span::new(1, 0, 1),
    };

    let outer_args = vec![inner_call];
    let outer_call = AstExpr::Call {
        func: "foo".to_string(),
        args: outer_args,
        site: Span::new(1, 0, 1),
    };

    assert_eq!(show(outer_call.display_pieces()), "foo([bar([5.0])])");
}

#[test]
fn test_parse_function_call_as_expression_statement() {
    let parser = Parser::new("foo(42, \"hello\");", false, true);
    let result = parser.parse();
    assert!(result.is_ok());
    let ast = result.unwrap();
    assert_eq!(ast.len(), 1);

    // Check that it's parsed as an expression statement
    match &ast[0] {
        Ast::Statement(AstStmt::Expression(expr)) => match expr {
            AstExpr::Call {
                func: _,
                args,
                site: _,
            } => {
                assert_eq!(args.len(), 2);
                assert_eq!(show(expr.display_pieces()), "foo([42.0, hello])");
            }
            _ => panic!("Expected call expression, got {expr:?}"),
        },
        _ => panic!("Expected Expression Statement, got {:?}", ast[0]),
    }
}

#[test]
fn test_parse_chained_function_calls() {
    let parser = Parser::new("foo().bar().baz();", false, true);
    let result = parser.parse();
    // This should fail currently as chained calls aren't implemented
    // But the test documents expected behavior
    assert!(result.is_err());
}


fn parse_one(source: &str, expression_mode: bool) -> Ast {
    let mut ast = Parser::new(source, expression_mode, false).parse().unwrap();
    assert_eq!(ast.len(), 1);
    ast.remove(0)
}

#[test]
fn builder_defaults_and_settings() {
    let parser = ParserBuilder::new("1;").build();
    assert!(parser.expression_mode);
    assert!(!parser.pretty_print);
    assert!(parser.print_ast);

    let parser = ParserBuilder::new("1;")
        .expression_mode(false)
        .pretty_print(true)
        .print_ast(false)
        .build();
    assert_eq!(parser.source, "1;");
    assert!(!parser.expression_mode);
    assert!(parser.pretty_print);
    assert!(!parser.print_ast);

    let default_builder = ParserBuilder::default();
    assert_eq!(default_builder.source, "");
    assert_eq!(default_builder.expression_mode, None);
}

#[test]
fn for_loop_becomes_while_loop() {
    let ast = parse_one("for (var i = 0; i < 3; i = i + 1) print i;", false);
    assert_eq!(
        show(ast.display_pieces()),
        "{\nvar i = 0.0;\nwhile (< i 3.0) {\nprint i;\ni = (+ i 1.0)\n}\n}"
    );
    let ast = parse_one("for (;;) print 1;", false);
    assert_eq!(show(ast.display_pieces()), "while true print 1.0;");
}

#[test]
fn function_declaration_display() {
    let ast = parse_one("fun add(a, b) { return a + b; }", false);
    assert_eq!(show(ast.display_pieces()), "fun add (a, b) {\n{\nreturn (+ a b);\n} }\n");
}

#[test]
fn names_and_strings_print_in_lower_case() {
    let ast = parse_one("print \"Hello\" + Name;", false);
    assert_eq!(show(ast.display_pieces()), "print (+ hello name);");
}

#[test]
fn assignment_to_non_name_uses_the_kind_label() {
    let ast = parse_one("(a) = 1;", false);
    assert_eq!(show(ast.display_pieces()), "LEFT_PAREN = 1.0");
}

#[test]
fn expression_mode_allows_bare_expressions() {
    let ast = parse_one("1 + 2", true);
    assert_eq!(show(ast.display_pieces()), "(+ 1.0 2.0)");
    assert!(Parser::new("1 + 2", false, false).parse().is_err());
}

#[test]
fn missing_semicolon_errors() {
    match Parser::new("print 1 2", false, false).parse() {
        Err(ParseError::MissingToken { expected, actual, line }) => {
            assert_eq!(expected, Lexeme::SemiColon);
            assert_eq!(actual, Lexeme::Number("2".into()));
            assert_eq!(line, 1);
        }
        other => panic!("unexpected {other:?}"),
    }
    match Parser::new("return 1 2", false, false).parse() {
        Err(ParseError::MissingToken { expected, .. }) => assert_eq!(expected, Lexeme::SemiColon),
        other => panic!("unexpected {other:?}"),
    }
}

#[test]
fn unexpected_token_and_eof_errors() {
    match Parser::new("print ;", false, false).parse() {
        Err(ParseError::UnexpectedToken { actual }) => assert_eq!(actual.lexeme, Lexeme::SemiColon),
        other => panic!("unexpected {other:?}"),
    }
    match Parser::new("@", false, false).parse() {
        Err(ParseError::UnexpectedEof) => {}
        other => panic!("unexpected {other:?}"),
    }
}

#[test]
fn for_clause_errors_are_wrapped() {
    match Parser::new("for (print; ;) x;", false, false).parse() {
        Err(ParseError::ExpectedExpressionError { token, source }) => {
            assert_eq!(token.lexeme, Lexeme::Print);
            assert!(matches!(*source, ParseError::UnexpectedToken { .. }));
        }
        other => panic!("unexpected {other:?}"),
    }
}

#[test]
fn too_many_arguments() {
    let args: Vec<String> = (0..255).map(|i| i.to_string()).collect();
    let source = format!("f({});", args.join(", "));
    match Parser::new(&source, false, false).parse() {
        Err(ParseError::TooManyFunctionArgs(line)) => assert_eq!(line, 1),
        other => panic!("unexpected {other:?}"),
    }
    let args: Vec<String> = (0..254).map(|i| i.to_string()).collect();
    let source = format!("f({});", args.join(", "));
    assert!(Parser::new(&source, false, false).parse().is_ok());
}

#[test]
fn parser_gives_up_on_unsupported_input() {
    for source in ["class A {}", "var 1;", "for x", "fun f(a", "for (;1 2) x;"] {
        assert!(
            matches!(Parser::new(source, false, false).parse_outcome(), Err(ParseStop::Abort)),
            "{source}"
        );
    }
}

#[test]
fn parsed_trees_are_printable() {
    let source = "var a = 1; { a = a * (2 - -3); } if (a >= 2 and !false) print a; else print nil; while (a < 10) a = a + 1; fun f(x) { return x; } f(a);";
    let ast = Parser::new(source, false, false).parse().unwrap();
    assert_eq!(ast.len(), 6);
    for node in &ast {
        let _ = show(node.display_pieces());
    }
}

#[test]
fn test_parser_new() {
    let source = "print 42;";
    let parser = Parser::new(source, true, true);
    assert_eq!(parser.source, source);
}

#[test]
fn unclosed_block_is_an_error() {
    match Parser::new("{ print 1;", false, false).parse() {
        Err(ParseError::UnexpectedToken { actual }) => assert_eq!(actual.lexeme, Lexeme::Eof),
        other => panic!("unexpected {other:?}"),
    }
}

#[test]
fn duplicate_gives_an_equal_tree() {
    let ast = Parser::new("fun f(a) { if (a) print [a]; } f(1, 2);", false, false).parse_outcome();
    assert!(ast.is_err());
    let ast = Parser::new("fun f(a, b) { while (a < b) a = a + 1; return -a; } print f(1, \"x\");", false, false)
        .parse()
        .unwrap();
    for node in &ast {
        assert_eq!(&node.duplicate(), node);
    }
}

#[test]
fn program_reads_every_declaration() {
    let ast = Parser::new("1; 2; 3;", false, false).parse().unwrap();
    assert_eq!(ast.len(), 3);
    assert_eq!(show(ast[2].display_pieces()), "3.0");
}

#[test]
fn tree_listing_layout() {
    let ast = Parser::new("print 1 + x;", false, false).parse().unwrap();
    let text: String = listing(&ast)
        .into_iter()
        .map(|p| match p {
            ListingPiece::Text(t) => t,
            ListingPiece::Token(_) => "<token>".to_string(),
            ListingPiece::Expr(_) => "<expr>".to_string(),
            ListingPiece::OptExpr(_) => "<opt>".to_string(),
        })
        .collect();
    assert_eq!(
        text,
        "AST:\nStatement(\n    Print(\n        Binary { op: <token>, left: <expr>, right: <expr> }\n    )\n)\n"
    );
}
