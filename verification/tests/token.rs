use lox::chars::one_of;
use lox::model::{keyword_token, lexeme_from, Lexeme, Token};
use lox::render::Piece;
use lox::scanner::Scanner;
use lox::span::Span;

/// The text of a number literal's value, as Lox shows numbers.
fn number_text(raw: &str) -> String {
    let v: f64 = raw.parse().unwrap();
    if v == v.trunc() {
        format!("{v}.0")
    } else {
        format!("{v}")
    }
}

/// Joins a printed form, filling in the numbers.
fn show(pieces: Vec<Piece>) -> String {
    pieces
        .into_iter()
        .map(|p| match p {
            Piece::Text(t) => t,
            Piece::Number(raw) => number_text(&raw),
        })
        .collect()
}

#[test]
fn token_test_token_new() {
    let span = Span::new(1, 0, 1);
    let lexeme = Lexeme::LeftParen;
    let token = Token::new(lexeme.clone(), span.clone());

    assert_eq!(token.lexeme, lexeme);
    assert_eq!(token.span, span);
}

#[test]
fn token_test_token_display_string() {
    let token = Token::new(Lexeme::String("hello".into()), Span::new(1, 0, 7));
    assert_eq!(show(token.display_pieces()), "STRING \"hello\" hello");
}

#[test]
fn token_test_token_display_number_integer() {
    let token = Token::new(Lexeme::Number("42".into()), Span::new(1, 0, 2));
    assert_eq!(show(token.display_pieces()), "NUMBER 42 42.0");
}

#[test]
fn token_test_token_display_number_float() {
    let token = Token::new(Lexeme::Number("1.23".into()), Span::new(1, 0, 4));
    assert_eq!(show(token.display_pieces()), "NUMBER 1.23 1.23");
}

#[test]
fn token_test_token_display_identifier() {
    let token = Token::new(Lexeme::Identifier("variable".into()), Span::new(1, 0, 8));
    assert_eq!(show(token.display_pieces()), "IDENTIFIER variable null");
}

#[test]
fn token_test_token_display_single_char() {
    let token = Token::new(Lexeme::LeftParen, Span::new(1, 0, 1));
    assert_eq!(show(token.display_pieces()), "LEFT_PAREN ( null");
}

#[test]
fn token_test_token_display_keyword() {
    let token = Token::new(Lexeme::True, Span::new(1, 0, 4));
    assert_eq!(show(token.display_pieces()), "TRUE true null");
}

#[test]
fn token_test_token_display_eof() {
    let token = Token::new(Lexeme::Eof, Span::new(1, 0, 0));
    assert_eq!(show(token.display_pieces()), "EOF  null");
}

#[test]
fn token_test_lexeme_from_single_chars() {
    assert_eq!(lexeme_from("("), Lexeme::LeftParen);
    assert_eq!(lexeme_from(")"), Lexeme::RightParen);
    assert_eq!(lexeme_from("{"), Lexeme::LeftBrace);
    assert_eq!(lexeme_from("}"), Lexeme::RightBrace);
    assert_eq!(lexeme_from(","), Lexeme::Comma);
    assert_eq!(lexeme_from("."), Lexeme::Dot);
    assert_eq!(lexeme_from(";"), Lexeme::SemiColon);
    assert_eq!(lexeme_from("+"), Lexeme::Plus);
    assert_eq!(lexeme_from("-"), Lexeme::Minus);
    assert_eq!(lexeme_from("*"), Lexeme::Star);
    assert_eq!(lexeme_from("/"), Lexeme::Slash);
    assert_eq!(lexeme_from("="), Lexeme::Eq);
    assert_eq!(lexeme_from("!"), Lexeme::Bang);
    assert_eq!(lexeme_from("<"), Lexeme::Less);
    assert_eq!(lexeme_from(">"), Lexeme::Greater);
}

#[test]
fn token_test_lexeme_from_double_chars() {
    assert_eq!(lexeme_from("=="), Lexeme::EqEq);
    assert_eq!(lexeme_from("!="), Lexeme::BangEq);
    assert_eq!(lexeme_from("<="), Lexeme::LessEq);
    assert_eq!(lexeme_from(">="), Lexeme::GreaterEq);
}

#[test]
fn token_test_lexeme_from_keywords() {
    assert_eq!(lexeme_from("print"), Lexeme::Print);
    assert_eq!(lexeme_from("true"), Lexeme::True);
    assert_eq!(lexeme_from("false"), Lexeme::False);
    assert_eq!(lexeme_from("nil"), Lexeme::Nil);
    assert_eq!(lexeme_from("and"), Lexeme::And);
    assert_eq!(lexeme_from("or"), Lexeme::Or);
    assert_eq!(lexeme_from("fun"), Lexeme::Fun);
    assert_eq!(lexeme_from("return"), Lexeme::Return);
    assert_eq!(lexeme_from("if"), Lexeme::If);
    assert_eq!(lexeme_from("else"), Lexeme::Else);
    assert_eq!(lexeme_from("for"), Lexeme::For);
    assert_eq!(lexeme_from("while"), Lexeme::While);
    assert_eq!(lexeme_from("class"), Lexeme::Class);
    assert_eq!(lexeme_from("super"), Lexeme::Super);
    assert_eq!(lexeme_from("this"), Lexeme::This);
    assert_eq!(lexeme_from("var"), Lexeme::Var);
    assert_eq!(lexeme_from("eof"), Lexeme::Eof);
}

#[test]
fn token_test_lexeme_display() {
    assert_eq!(Lexeme::Number("42".into()).display_string(), "NUMBER");
    assert_eq!(Lexeme::Identifier("var".into()).display_string(), "IDENTIFIER");
    assert_eq!(Lexeme::String("hello".into()).display_string(), "STRING");
    assert_eq!(Lexeme::LeftParen.display_string(), "LEFT_PAREN");
    assert_eq!(Lexeme::True.display_string(), "TRUE");
    assert_eq!(Lexeme::Eof.display_string(), "EOF");
}

#[test]
fn token_test_scanner_new() {
    let source = "test source";
    let scanner = Scanner::new(source, true);
    assert_eq!(scanner.source, source);
}

#[test]
fn token_test_scanner_empty_source() {
    let scanner = Scanner::new("", true);
    let tokens = scanner.scan().unwrap();
    assert_eq!(tokens.len(), 1);
    assert_eq!(tokens[0].lexeme, Lexeme::Eof);
}

#[test]
fn token_test_scanner_single_tokens() {
    let scanner = Scanner::new("(){},.+-;*", true);
    let tokens = scanner.scan().unwrap();

    let expected_lexemes = vec![
        Lexeme::LeftParen,
        Lexeme::RightParen,
        Lexeme::LeftBrace,
        Lexeme::RightBrace,
        Lexeme::Comma,
        Lexeme::Dot,
        Lexeme::Plus,
        Lexeme::Minus,
        Lexeme::SemiColon,
        Lexeme::Star,
        Lexeme::Eof,
    ];

    assert_eq!(tokens.len(), expected_lexemes.len());
    for (token, expected) in tokens.iter().zip(expected_lexemes.iter()) {
        assert_eq!(&token.lexeme, expected);
    }
}

#[test]
fn token_test_scanner_comparison_operators() {
    let scanner = Scanner::new("== ! != < <= > >=", true);
    let tokens = scanner.scan().unwrap();

    let expected_lexemes = vec![
        Lexeme::EqEq,
        Lexeme::Bang,
        Lexeme::BangEq,
        Lexeme::Less,
        Lexeme::LessEq,
        Lexeme::Greater,
        Lexeme::GreaterEq,
        Lexeme::Eof,
    ];

    assert_eq!(tokens.len(), expected_lexemes.len());
    for (token, expected) in tokens.iter().zip(expected_lexemes.iter()) {
        assert_eq!(&token.lexeme, expected);
    }
}

#[test]
fn token_test_scanner_string_literal() {
    let scanner = Scanner::new("\"hello world\"", true);
    let tokens = scanner.scan().unwrap();

    assert_eq!(tokens.len(), 2);
    assert_eq!(tokens[0].lexeme, Lexeme::String("hello world".into()));
    assert_eq!(tokens[1].lexeme, Lexeme::Eof);
}

#[test]
fn token_test_scanner_unterminated_string() {
    let scanner = Scanner::new("\"unterminated", true);
    let result = scanner.scan();

    assert!(result.is_err());
    let error = result.unwrap_err();
    assert_eq!(error, 65);
}

#[test]
fn token_test_scanner_numbers() {
    let scanner = Scanner::new("123 1.23 42.0", true);
    let tokens = scanner.scan().unwrap();

    assert_eq!(tokens.len(), 4);
    assert_eq!(tokens[0].lexeme, Lexeme::Number("123".into()));
    assert_eq!(tokens[1].lexeme, Lexeme::Number("1.23".into()));
    assert_eq!(tokens[2].lexeme, Lexeme::Number("42.0".into()));
    assert_eq!(tokens[3].lexeme, Lexeme::Eof);
}

#[test]
fn token_test_scanner_identifiers() {
    let scanner = Scanner::new("variable _123private camelCase", true);
    let tokens = scanner.scan().unwrap();

    assert_eq!(tokens.len(), 4);
    assert_eq!(tokens[0].lexeme, Lexeme::Identifier("variable".into()));
    assert_eq!(tokens[1].lexeme, Lexeme::Identifier("_123private".into()));
    assert_eq!(tokens[2].lexeme, Lexeme::Identifier("camelCase".into()));
    assert_eq!(tokens[3].lexeme, Lexeme::Eof);
}

#[test]
fn token_test_scanner_keywords() {
    let scanner = Scanner::new("true false nil and or", true);
    let tokens = scanner.scan().unwrap();

    assert_eq!(tokens.len(), 6);
    assert_eq!(tokens[0].lexeme, Lexeme::True);
    assert_eq!(tokens[1].lexeme, Lexeme::False);
    assert_eq!(tokens[2].lexeme, Lexeme::Nil);
    assert_eq!(tokens[3].lexeme, Lexeme::And);
    assert_eq!(tokens[4].lexeme, Lexeme::Or);
    assert_eq!(tokens[5].lexeme, Lexeme::Eof);
}

#[test]
fn token_test_scanner_comments() {
    let scanner = Scanner::new("// this is a comment\n42", true);
    let tokens = scanner.scan().unwrap();

    assert_eq!(tokens.len(), 2);
    assert_eq!(tokens[0].lexeme, Lexeme::Number("42".into()));
    assert_eq!(tokens[1].lexeme, Lexeme::Eof);
}

#[test]
fn token_test_scanner_whitespace() {
    let scanner = Scanner::new("  \t\n  42  \r\n  ", true);
    let tokens = scanner.scan().unwrap();

    assert_eq!(tokens.len(), 2);
    assert_eq!(tokens[0].lexeme, Lexeme::Number("42".into()));
    assert_eq!(tokens[1].lexeme, Lexeme::Eof);
}

#[test]
fn token_test_scanner_invalid_character() {
    let scanner = Scanner::new("@", true);
    let result = scanner.scan();

    assert!(result.is_err());
    let error = result.unwrap_err();
    assert_eq!(error, 65);
}

#[test]
fn token_test_scanner_complex_program() {
    let source = r#"
            fun fibonacci(n) {
                if (n <= 1) return n;
                return fibonacci(n - 1) + fibonacci(n - 2);
            }

            print fibonacci(10);
        "#;

    let scanner = Scanner::new(source, true);
    let tokens = scanner.scan().unwrap();

    assert!(tokens.len() > 20);
    assert!(tokens.iter().any(|t| matches!(t.lexeme, Lexeme::Fun)));
    assert!(tokens.iter().any(|t| matches!(t.lexeme, Lexeme::If)));
    assert!(tokens.iter().any(|t| matches!(t.lexeme, Lexeme::Return)));
    assert!(tokens.iter().any(|t| matches!(t.lexeme, Lexeme::Print)));
}

#[test]
fn token_test_lexeme_from_helper() {
    assert_eq!(lexeme_from("("), Lexeme::LeftParen);
    assert_eq!(lexeme_from("true"), Lexeme::True);
}

#[test]
fn token_test_keyword_token_helper() {
    assert_eq!(keyword_token("true"), Some(Lexeme::True));
    assert_eq!(keyword_token("false"), Some(Lexeme::False));
    assert_eq!(keyword_token("identifier"), None);
}

#[test]
fn token_test_one_of_helper() {
    assert!(one_of('a', "abc"));
    assert!(one_of('\n', "\n\r"));
    assert!(!one_of('x', "abc"));
    assert!(!one_of('a', ""));
}

#[test]
fn scan_spans_count_bytes_and_lines() {
    let scanner = Scanner::new("a\n\"éa\" 12.5", false);
    let tokens = scanner.scan().unwrap();
    assert_eq!(tokens.len(), 4);
    assert_eq!(tokens[0].span, Span::new(1, 0, 1));
    assert_eq!(tokens[1].lexeme, Lexeme::String("éa".into()));
    assert_eq!(tokens[1].span.line, 2);
    assert_eq!(tokens[2].lexeme, Lexeme::Number("12.5".into()));
    assert_eq!(tokens[3].lexeme, Lexeme::Eof);
    assert_eq!(tokens[3].span.offset, "a\n\"éa\" 12.5".len());
}

#[test]
fn scan_ends_with_a_single_eof() {
    for source in ["", "var x = 1;", "eof", "// only a comment", "a.b(c) >= d"] {
        let tokens = Scanner::new(source, false).scan().unwrap();
        let last = tokens.last().unwrap();
        assert_eq!(last.lexeme, Lexeme::Eof);
        assert_eq!(last.span.offset, source.len());
        assert_eq!(tokens.iter().filter(|t| t.lexeme == Lexeme::Eof).count(), 1);
    }
}

#[test]
fn scan_report_gives_up_on_lone_non_ascii_letter() {
    let report = Scanner::new("é", false).scan_report();
    assert!(report.aborted);
    let report = Scanner::new("\"ab\" ok", false).scan_report();
    assert!(!report.aborted);
    assert!(report.errors.is_empty());
}

#[test]
fn scan_number_dot_without_digits() {
    let tokens = Scanner::new("12.", false).scan().unwrap();
    assert_eq!(tokens[0].lexeme, Lexeme::Number("12".into()));
    assert_eq!(tokens[1].lexeme, Lexeme::Eof);
}

#[test]
fn spelling_round_trip_examples() {
    for l in [Lexeme::LeftParen, Lexeme::GreaterEq, Lexeme::While, Lexeme::Eof, Lexeme::Print] {
        assert_eq!(lexeme_from(l.lexeme_str()), l);
    }
}

#[test]
fn keyword_and_eof_names() {
    assert_eq!(Lexeme::While.display_name(), "WHILE");
    assert_eq!(Lexeme::Eof.display_name(), "EOF");
    assert_eq!(Lexeme::Plus.display_name(), "+");
    assert_eq!(Lexeme::Identifier("abc".into()).lexeme_str(), "abc");
    assert_eq!(Lexeme::Eof.lexeme_str(), "eof");
}

#[test]
fn test_scanner_new() {
    let source = "test source";
    let scanner = Scanner::new(source, true);
    assert_eq!(scanner.source, source);
}

#[test]
fn test_one_of_helper() {
    assert!(one_of('a', "abc"));
    assert!(one_of('\n', "\n\r"));
    assert!(!one_of('x', "abc"));
    assert!(!one_of('a', ""));
}

#[test]
fn non_ascii_letters_start_identifiers() {
    let tokens = Scanner::new("éa ab", false).scan().unwrap();
    assert_eq!(tokens[0].lexeme, Lexeme::Identifier("éa".into()));
    assert_eq!(tokens[0].span, Span::new(1, 0, 3));
    assert_eq!(tokens[1].lexeme, Lexeme::Identifier("ab".into()));
    assert_eq!(Scanner::new("€", false).scan(), Err(65));
}

#[test]
fn identifier_tail_stops_at_nine() {
    let tokens = Scanner::new("a19", false).scan().unwrap();
    assert_eq!(tokens[0].lexeme, Lexeme::Identifier("a1".into()));
    assert_eq!(tokens[1].lexeme, Lexeme::Number("9".into()));
}

#[test]
fn tokens_lie_within_the_source() {
    let source = "var naïve = \"ünïa\" + 12.5; // done\nprint naïve;";
    let tokens = Scanner::new(source, false).scan().unwrap();
    for t in &tokens {
        assert!(t.span.offset + t.span.len <= source.len());
    }
}

#[test]
fn scan_report_of_string_ending_in_non_ascii_gives_up() {
    assert!(Scanner::new("\"ünï\"", false).scan_report().aborted);
}

#[test]
fn spans_cut_token_texts_in_order() {
    let source = "var naïve = \"ünïa\" + 12.5; foo_1(x)";
    let tokens = Scanner::new(source, false).scan().unwrap();
    for pair in tokens.windows(2) {
        assert!(pair[0].span.offset + pair[0].span.len <= pair[1].span.offset);
    }
    for t in &tokens {
        let cut = &source[t.span.offset..t.span.offset + t.span.len];
        match &t.lexeme {
            Lexeme::Identifier(s) | Lexeme::String(s) | Lexeme::Number(s) => assert_eq!(cut, s),
            _ => {}
        }
    }
}
