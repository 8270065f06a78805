use kya::errors::Error;
use kya::lexer::{unescape_string_literal, Lexer, TokenType};

#[test]
fn test_skips_whitespace() {
    let mut lexer = Lexer::new("   \t\n".to_string());

    let token = lexer.next_token().unwrap().unwrap();
    assert_eq!(token.kind, TokenType::Newline);
    assert_eq!(token.value, "\n");
    assert_eq!(token.line, 2);
    assert_eq!(token.column, 1);
}

#[test]
fn test_newline() {
    let mut lexer = Lexer::new("\n\n".to_string());

    let token = lexer.next_token().unwrap().unwrap();
    assert_eq!(token.kind, TokenType::Newline);
    assert_eq!(token.value, "\n");
    assert_eq!(token.line, 2);
    assert_eq!(token.column, 1);

    let token = lexer.next_token().unwrap().unwrap();
    assert_eq!(token.kind, TokenType::Newline);
    assert_eq!(token.value, "\n");
    assert_eq!(token.line, 3);
    assert_eq!(token.column, 1);
}

#[test]
fn test_identifier() {
    let mut lexer = Lexer::new("my_function".to_string());

    let token = lexer.next_token().unwrap().unwrap();

    assert_eq!(token.kind, TokenType::Identifier);
    assert_eq!(token.value, "my_function");
    assert_eq!(token.line, 1);
    assert_eq!(token.column, 1);
}

#[test]
fn test_identifier_starting_with_underscore() {
    let mut lexer = Lexer::new("_my_function".to_string());

    let token = lexer.next_token().unwrap().unwrap();

    assert_eq!(token.kind, TokenType::Identifier);
    assert_eq!(token.value, "_my_function");
    assert_eq!(token.line, 1);
    assert_eq!(token.column, 1);
}

#[test]
fn test_string_literal_with_quotes() {
    let mut lexer = Lexer::new("\"my string\"".to_string());

    let token = lexer.next_token().unwrap().unwrap();

    assert_eq!(token.kind, TokenType::StringLiteral);
    assert_eq!(token.value, "my string");
    assert_eq!(token.line, 1);
    assert_eq!(token.column, 1);
}

#[test]
fn test_string_literal_with_single_quotes() {
    let mut lexer = Lexer::new("'my string'".to_string());

    let token = lexer.next_token().unwrap().unwrap();

    assert_eq!(token.kind, TokenType::StringLiteral);
    assert_eq!(token.value, "my string");
    assert_eq!(token.line, 1);
    assert_eq!(token.column, 1);
}

#[test]
fn test_unterminated_string_literal() {
    let mut lexer = Lexer::new("\"my string".to_string());

    let result = lexer.next_token();

    assert!(result.is_err());
    let error = result.unwrap_err();
    let lexer_error = match error {
        Error::LexerError(err) => err,
        _ => panic!("Expected LexerError"),
    };
    assert_eq!(lexer_error.message, "Unterminated string literal");
}
#[test]
fn test_symbols() {
    let symbols = [
        ("(", TokenType::LeftParen),
        (")", TokenType::RightParen),
        ("=", TokenType::Equal),
        ("==", TokenType::EqEqual),
        (">", TokenType::Gt),
        ("<", TokenType::Lt),
        (">=", TokenType::Gte),
        ("<=", TokenType::Lte),
        ("!=", TokenType::Neq),
        ("def", TokenType::Def),
        ("end", TokenType::End),
        (",", TokenType::Comma),
        ("class", TokenType::Class),
        (".", TokenType::Dot),
        ("if", TokenType::If),
        ("import", TokenType::Import),
        ("+", TokenType::Plus),
        ("-", TokenType::Minus),
        ("while", TokenType::While),
        ("break", TokenType::Break),
        ("return", TokenType::Return),
        ("!", TokenType::Not),
        ("raise", TokenType::Raise),
    ];
    for (symbol, kind) in symbols.iter() {
        let mut lexer = Lexer::new(symbol.to_string());
        let token = lexer.next_token().unwrap().unwrap();
        assert_eq!(&token.kind, kind);
        assert_eq!(&token.value, symbol);
        assert_eq!(token.line, 1);
        assert_eq!(token.column, 1);
    }
}

#[test]
fn test_number_literal_unsigned() {
    let mut lexer = Lexer::new("12345".to_string());

    let token = lexer.next_token().unwrap().unwrap();

    assert_eq!(token.kind, TokenType::NumberLiteral);
    assert_eq!(token.value, "12345");
    assert_eq!(token.line, 1);
    assert_eq!(token.column, 1);
}

#[test]
fn test_number_literal_signed() {
    let mut lexer = Lexer::new("-12345".to_string());

    let token = lexer.next_token().unwrap().unwrap();

    assert_eq!(token.kind, TokenType::Minus);
    assert_eq!(token.value, "-");
    assert_eq!(token.line, 1);
    assert_eq!(token.column, 1);

    let token = lexer.next_token().unwrap().unwrap();

    assert_eq!(token.kind, TokenType::NumberLiteral);
    assert_eq!(token.value, "12345");
    assert_eq!(token.line, 1);
    assert_eq!(token.column, 2);
}

#[test]
fn test_number_literal_with_decimal() {
    let mut lexer = Lexer::new("123.45".to_string());

    let token = lexer.next_token().unwrap().unwrap();

    assert_eq!(token.kind, TokenType::NumberLiteral);
    assert_eq!(token.value, "123.45");
    assert_eq!(token.line, 1);
    assert_eq!(token.column, 1);
}

#[test]
fn test_number_literal_with_plus() {
    let mut lexer = Lexer::new("+12345".to_string());

    let token = lexer.next_token().unwrap().unwrap();

    assert_eq!(token.kind, TokenType::Plus);
    assert_eq!(token.value, "+");
    assert_eq!(token.line, 1);
    assert_eq!(token.column, 1);

    let token = lexer.next_token().unwrap().unwrap();

    assert_eq!(token.kind, TokenType::NumberLiteral);
    assert_eq!(token.value, "12345");
    assert_eq!(token.line, 1);
    assert_eq!(token.column, 2);
}

#[test]
fn test_number_literal_with_extra_dot() {
    let mut lexer = Lexer::new("12345.0.".to_string());

    let token = lexer.next_token();

    assert!(token.is_err());
}

#[test]
fn test_def_keyword() {
    let mut lexer = Lexer::new("def my_method\nend\n".to_string());
    let tokens = [
        lexer.next_token().unwrap().unwrap(),
        lexer.next_token().unwrap().unwrap(),
    ];

    assert_eq!(tokens[0].kind, TokenType::Def);
    assert_eq!(tokens[0].value, "def");
    assert_eq!(tokens[0].line, 1);
    assert_eq!(tokens[0].column, 1);

    assert_eq!(tokens[1].kind, TokenType::Identifier);
    assert_eq!(tokens[1].value, "my_method");
    assert_eq!(tokens[1].line, 1);
    assert_eq!(tokens[1].column, 5);
}

#[test]
fn test_end_keyword() {
    let mut lexer = Lexer::new("end".to_string());

    let token = lexer.next_token().unwrap().unwrap();

    assert_eq!(token.kind, TokenType::End);
    assert_eq!(token.value, "end");
    assert_eq!(token.line, 1);
    assert_eq!(token.column, 1);
}

#[test]
fn test_comma() {
    let mut lexer = Lexer::new(",".to_string());

    let token = lexer.next_token().unwrap().unwrap();

    assert_eq!(token.kind, TokenType::Comma);
    assert_eq!(token.value, ",");
    assert_eq!(token.line, 1);
    assert_eq!(token.column, 1);
}

#[test]
fn test_class_keyword() {
    let mut lexer = Lexer::new("class MyClass\nend\n".to_string());
    let tokens = [
        lexer.next_token().unwrap().unwrap(),
        lexer.next_token().unwrap().unwrap(),
    ];

    assert_eq!(tokens[0].kind, TokenType::Class);
    assert_eq!(tokens[0].value, "class");
    assert_eq!(tokens[0].line, 1);
    assert_eq!(tokens[0].column, 1);

    assert_eq!(tokens[1].kind, TokenType::Identifier);
    assert_eq!(tokens[1].value, "MyClass");
    assert_eq!(tokens[1].line, 1);
    assert_eq!(tokens[1].column, 7);
}

#[test]
fn test_dot() {
    let mut lexer = Lexer::new(".".to_string());

    let token = lexer.next_token().unwrap().unwrap();

    assert_eq!(token.kind, TokenType::Dot);
    assert_eq!(token.value, ".");
    assert_eq!(token.line, 1);
    assert_eq!(token.column, 1);
}

#[test]
fn test_comment() {
    let mut lexer = Lexer::new("# This is a comment\n".to_string());

    let token = lexer.next_token().unwrap().unwrap();

    assert_eq!(token.kind, TokenType::Newline);
    assert_eq!(token.line, 2);
    assert_eq!(token.column, 1);
}

#[test]
fn test_if_keyword() {
    let mut lexer = Lexer::new("if condition\nend\n".to_string());
    let tokens = [
        lexer.next_token().unwrap().unwrap(),
        lexer.next_token().unwrap().unwrap(),
    ];

    assert_eq!(tokens[0].kind, TokenType::If);
    assert_eq!(tokens[0].value, "if");
    assert_eq!(tokens[0].line, 1);
    assert_eq!(tokens[0].column, 1);

    assert_eq!(tokens[1].kind, TokenType::Identifier);
    assert_eq!(tokens[1].value, "condition");
    assert_eq!(tokens[1].line, 1);
    assert_eq!(tokens[1].column, 4);
}

#[test]
fn test_import_keyword() {
    let mut lexer = Lexer::new("import module_name\n".to_string());
    let tokens = [
        lexer.next_token().unwrap().unwrap(),
        lexer.next_token().unwrap().unwrap(),
    ];

    assert_eq!(tokens[0].kind, TokenType::Import);
    assert_eq!(tokens[0].value, "import");
    assert_eq!(tokens[0].line, 1);
    assert_eq!(tokens[0].column, 1);

    assert_eq!(tokens[1].kind, TokenType::Identifier);
    assert_eq!(tokens[1].value, "module_name");
    assert_eq!(tokens[1].line, 1);
    assert_eq!(tokens[1].column, 8);
}

#[test]
fn test_while_keyword() {
    let mut lexer = Lexer::new("while condition\nend\n".to_string());
    let tokens = [
        lexer.next_token().unwrap().unwrap(),
        lexer.next_token().unwrap().unwrap(),
    ];

    assert_eq!(tokens[0].kind, TokenType::While);
    assert_eq!(tokens[0].value, "while");
    assert_eq!(tokens[0].line, 1);
    assert_eq!(tokens[0].column, 1);

    assert_eq!(tokens[1].kind, TokenType::Identifier);
    assert_eq!(tokens[1].value, "condition");
    assert_eq!(tokens[1].line, 1);
    assert_eq!(tokens[1].column, 7);
}

#[test]
fn test_break_keyword() {
    let mut lexer = Lexer::new("break\n".to_string());

    let token = lexer.next_token().unwrap().unwrap();

    assert_eq!(token.kind, TokenType::Break);
    assert_eq!(token.value, "break");
    assert_eq!(token.line, 1);
    assert_eq!(token.column, 1);
}

#[test]
fn test_return_keyword() {
    let mut lexer = Lexer::new("return value\n".to_string());
    let tokens = [
        lexer.next_token().unwrap().unwrap(),
        lexer.next_token().unwrap().unwrap(),
    ];

    assert_eq!(tokens[0].kind, TokenType::Return);
    assert_eq!(tokens[0].value, "return");
    assert_eq!(tokens[0].line, 1);
    assert_eq!(tokens[0].column, 1);

    assert_eq!(tokens[1].kind, TokenType::Identifier);
    assert_eq!(tokens[1].value, "value");
    assert_eq!(tokens[1].line, 1);
    assert_eq!(tokens[1].column, 8);
}

#[test]
fn test_raise_keyword() {
    let mut lexer = Lexer::new("raise Exception()\n".to_string());
    let tokens = [
        lexer.next_token().unwrap().unwrap(),
        lexer.next_token().unwrap().unwrap(),
    ];

    assert_eq!(tokens[0].kind, TokenType::Raise);
    assert_eq!(tokens[0].value, "raise");
    assert_eq!(tokens[0].line, 1);
    assert_eq!(tokens[0].column, 1);

    assert_eq!(tokens[1].kind, TokenType::Identifier);
    assert_eq!(tokens[1].value, "Exception");
    assert_eq!(tokens[1].line, 1);
    assert_eq!(tokens[1].column, 7);

    let token = lexer.next_token().unwrap().unwrap();

    assert_eq!(token.kind, TokenType::LeftParen);
    assert_eq!(token.value, "(");
    assert_eq!(token.line, 1);
    assert_eq!(token.column, 16);

    let token = lexer.next_token().unwrap().unwrap();

    assert_eq!(token.kind, TokenType::RightParen);
    assert_eq!(token.value, ")");
    assert_eq!(token.line, 1);
    assert_eq!(token.column, 17);
}

#[test]
fn test_invalid_symbol_reports_the_char_and_place() {
    let mut lexer = Lexer::new("x @".to_string());
    let first = lexer.next_token().unwrap().unwrap();
    assert_eq!(first.kind, TokenType::Identifier);
    match lexer.next_token() {
        Err(Error::LexerError(e)) => {
            assert_eq!(e.message, "Invalid symbol: @");
            assert_eq!(e.line, 1);
            assert_eq!(e.column, 3);
        }
        other => panic!("unexpected {:?}", other),
    }
}

#[test]
fn test_end_of_input_gives_none() {
    let mut lexer = Lexer::new("  # only a comment".to_string());
    assert_eq!(lexer.next_token().unwrap(), None);
    assert_eq!(lexer.next_token().unwrap(), None);
}

#[test]
fn test_keyword_prefix_of_identifier_stops_early() {
    let mut lexer = Lexer::new("definition".to_string());
    let token = lexer.next_token().unwrap().unwrap();
    assert_eq!(token.kind, TokenType::Def);
    assert_eq!(token.value, "def");
    let token = lexer.next_token().unwrap().unwrap();
    assert_eq!(token.kind, TokenType::Identifier);
    assert_eq!(token.value, "inition");
    assert_eq!(token.column, 4);
}

#[test]
fn test_two_char_symbols_are_greedy() {
    let mut lexer = Lexer::new("a>=b".to_string());
    lexer.next_token().unwrap().unwrap();
    let token = lexer.next_token().unwrap().unwrap();
    assert_eq!(token.kind, TokenType::Gte);
    assert_eq!(token.value, ">=");
    assert_eq!(token.column, 2);
}

#[test]
fn test_string_escapes() {
    let mut lexer = Lexer::new("'a\\nb\\tc'".to_string());
    let token = lexer.next_token().unwrap().unwrap();
    assert_eq!(token.kind, TokenType::StringLiteral);
    assert_eq!(token.value, "a\nb\tc");
    assert_eq!(unescape_string_literal("x\\ry"), "x\ry");
    assert_eq!(unescape_string_literal("plain"), "plain");
}

#[test]
fn test_extra_dot_error_message() {
    let mut lexer = Lexer::new("1.2.3".to_string());
    match lexer.next_token() {
        Err(Error::LexerError(e)) => {
            assert_eq!(e.message, "Invalid number literal");
            assert_eq!(e.column, 1);
        }
        other => panic!("unexpected {:?}", other),
    }
}

#[test]
fn test_is_at_end() {
    let mut lexer = Lexer::new("a".to_string());
    assert!(!lexer.is_at_end());
    lexer.next_token().unwrap();
    assert!(lexer.is_at_end());
}

#[test]
fn test_unicode_identifier() {
    let mut lexer = Lexer::new("été = 1".to_string());
    let token = lexer.next_token().unwrap().unwrap();
    assert_eq!(token.kind, TokenType::Identifier);
    assert_eq!(token.value, "été");
    let token = lexer.next_token().unwrap().unwrap();
    assert_eq!(token.kind, TokenType::Equal);
    assert_eq!(token.column, 5);
}

#[test]
fn the_end_comes_when_only_blanks_and_comments_are_left() {
    for text in ["", "   ", " \t\r ", "# note", "  # a # b\r# c", "\r\r"] {
        let mut lexer = Lexer::new(text.to_string());
        assert!(matches!(lexer.next_token(), Ok(None)), "{:?}", text);
        assert!(matches!(lexer.next_token(), Ok(None)), "{:?}", text);
    }
    for text in ["  x", "# note\n", " \t1", "# a\r'b'"] {
        let mut lexer = Lexer::new(text.to_string());
        assert!(matches!(lexer.next_token(), Ok(Some(_))), "{:?}", text);
    }
}

#[test]
fn unescaping_twice_is_unescaping_once() {
    for text in ["a\\nb", "\\\\n", "\\\\\\n\\t", "\\r\\x", "plain", "\\", "\\\\t\\\\r"] {
        let once = unescape_string_literal(text);
        assert_eq!(unescape_string_literal(&once), once, "{:?}", text);
    }
}

#[test]
fn ascii_letters_start_identifiers() {
    let mut lexer = Lexer::new("abc_Z9".to_string());
    let token = lexer.next_token().unwrap().unwrap();
    assert_eq!(token.kind, TokenType::Identifier);
    assert_eq!(token.value, "abc_Z9");
}

#[test]
fn a_char_that_starts_no_token_is_an_invalid_symbol() {
    let mut lexer = Lexer::new("  @x".to_string());
    for _ in 0..2 {
        match lexer.next_token() {
            Err(Error::LexerError(e)) => {
                assert_eq!(e.message, "Invalid symbol: @");
                assert_eq!(e.line, 1);
                assert_eq!(e.column, 3);
            }
            _ => panic!("expected a lexer error"),
        }
    }
}
