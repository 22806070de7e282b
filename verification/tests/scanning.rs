use tokenizer::number::BigNat;
use tokenizer::{Error, ErrorKind, NumberValue, Token, TokenKind, Tokenizer};

fn sorts<'a>(tokens: &'a [Token<'a>]) -> Vec<(&'a str, usize, usize)> {
    tokens.iter().map(|token| (token.lexeme, token.line, token.column)).collect()
}

fn limbs(value: &BigNat) -> Vec<u32> {
    value.limbs().clone()
}

#[test]
fn empty_input_is_one_eof() {
    let mut tokenizer = Tokenizer::new("", "empty");
    let tokens = tokenizer.scan_tokens().unwrap();
    assert_eq!(tokens.len(), 1);
    assert_eq!(tokens[0], Token { lexeme: "", line: 1, column: 0, kind: TokenKind::Eof });
}

#[test]
fn blank_input_is_one_eof() {
    let mut tokenizer = Tokenizer::new(" \t\r\n  \n", "blank");
    let tokens = tokenizer.scan_tokens().unwrap();
    assert_eq!(tokens.len(), 1);
    assert_eq!(tokens[0], Token { lexeme: "", line: 3, column: 0, kind: TokenKind::Eof });
}

#[test]
fn spaces_alone_stay_on_the_first_line() {
    let mut tokenizer = Tokenizer::new("    ", "blank");
    let tokens = tokenizer.scan_tokens().unwrap();
    assert_eq!(tokens, [Token { lexeme: "", line: 1, column: 0, kind: TokenKind::Eof }]);
}

#[test]
fn decimal_integer_is_one_number() {
    let mut tokenizer = Tokenizer::new("123", "test");
    let tokens = tokenizer.scan_tokens().unwrap();
    assert_eq!(tokens.len(), 2);
    assert_eq!(
        tokens[0],
        Token {
            lexeme: "123",
            line: 1,
            column: 1,
            kind: TokenKind::Number(NumberValue::Decimal("123")),
        }
    );
    assert_eq!(tokens[1], Token { lexeme: "", line: 1, column: 0, kind: TokenKind::Eof });
    match &tokens[0].kind {
        TokenKind::Number(NumberValue::Decimal(notation)) => {
            assert_eq!(notation.parse::<f64>().unwrap(), 123.0);
        }
        other => panic!("not a decimal number: {:?}", other),
    }
}

#[test]
fn suffix_n_makes_a_big_integer() {
    let mut tokenizer = Tokenizer::new("123n", "test");
    let tokens = tokenizer.scan_tokens().unwrap();
    assert_eq!(tokens.len(), 2);
    assert_eq!(tokens[0].lexeme, "123n");
    assert_eq!((tokens[0].line, tokens[0].column), (1, 1));
    match &tokens[0].kind {
        TokenKind::BigInt(value) => assert_eq!(limbs(value), vec![123]),
        other => panic!("not a big integer: {:?}", other),
    }
    assert_eq!(tokens[1].kind, TokenKind::Eof);
}

#[test]
fn fraction_belongs_to_the_number() {
    let mut tokenizer = Tokenizer::new("1.5", "test");
    let tokens = tokenizer.scan_tokens().unwrap();
    assert_eq!(tokens.len(), 2);
    assert_eq!(tokens[0].lexeme, "1.5");
    assert_eq!(tokens[0].kind, TokenKind::Number(NumberValue::Decimal("1.5")));
    match &tokens[0].kind {
        TokenKind::Number(NumberValue::Decimal(notation)) => {
            assert_eq!(notation.parse::<f64>().unwrap(), 1.5);
        }
        other => panic!("not a decimal number: {:?}", other),
    }
}

#[test]
fn point_without_digit_is_punctuation() {
    let mut tokenizer = Tokenizer::new("1.", "test");
    let tokens = tokenizer.scan_tokens().unwrap();
    assert_eq!(
        tokens,
        [
            Token {
                lexeme: "1",
                line: 1,
                column: 1,
                kind: TokenKind::Number(NumberValue::Decimal("1")),
            },
            Token { lexeme: ".", line: 1, column: 2, kind: TokenKind::Punctuation },
            Token { lexeme: "", line: 1, column: 0, kind: TokenKind::Eof },
        ]
    );
}

#[test]
fn suffix_n_does_not_follow_a_fraction() {
    let mut tokenizer = Tokenizer::new("1.5n", "test");
    let error = tokenizer.scan_tokens().unwrap_err();
    assert_eq!(
        error,
        Error::new("n", 1, 4, "1.5n", "test", ErrorKind::UnknownCharacter)
    );
}

#[test]
fn binary_literal_is_a_number() {
    let mut tokenizer = Tokenizer::new("0b101", "test");
    let tokens = tokenizer.scan_tokens().unwrap();
    assert_eq!(tokens.len(), 2);
    assert_eq!(
        tokens[0],
        Token {
            lexeme: "0b101",
            line: 1,
            column: 1,
            kind: TokenKind::Number(NumberValue::Integer(5)),
        }
    );
}

#[test]
fn binary_literal_with_suffix_is_a_big_integer() {
    let mut tokenizer = Tokenizer::new("0b101n", "test");
    let tokens = tokenizer.scan_tokens().unwrap();
    assert_eq!(tokens.len(), 2);
    assert_eq!(tokens[0].lexeme, "0b101n");
    match &tokens[0].kind {
        TokenKind::BigInt(value) => assert_eq!(limbs(value), vec![5]),
        other => panic!("not a big integer: {:?}", other),
    }
}

#[test]
fn binary_prefix_without_digit_fails_behind_the_prefix() {
    let mut tokenizer = Tokenizer::new("0b", "test");
    let error = tokenizer.scan_tokens().unwrap_err();
    assert_eq!(error, Error::new("", 1, 3, "0b", "test", ErrorKind::ExpectedDigit));
}

#[test]
fn prefix_names_the_character_that_is_no_digit() {
    let mut tokenizer = Tokenizer::new("1 0b2", "test");
    let error = tokenizer.scan_tokens().unwrap_err();
    assert_eq!(error, Error::new("2", 1, 5, "1 0b2", "test", ErrorKind::ExpectedDigit));

    let mut tokenizer = Tokenizer::new("0o8", "test");
    let error = tokenizer.scan_tokens().unwrap_err();
    assert_eq!(error, Error::new("8", 1, 3, "0o8", "test", ErrorKind::ExpectedDigit));

    let mut tokenizer = Tokenizer::new("0xg", "test");
    let error = tokenizer.scan_tokens().unwrap_err();
    assert_eq!(error, Error::new("g", 1, 3, "0xg", "test", ErrorKind::ExpectedDigit));
}

#[test]
fn block_comment_gives_no_token() {
    let mut tokenizer = Tokenizer::new("{- comment -}42", "test");
    let tokens = tokenizer.scan_tokens().unwrap();
    assert_eq!(
        tokens,
        [
            Token {
                lexeme: "42",
                line: 1,
                column: 14,
                kind: TokenKind::Number(NumberValue::Decimal("42")),
            },
            Token { lexeme: "", line: 1, column: 0, kind: TokenKind::Eof },
        ]
    );
    match &tokens[0].kind {
        TokenKind::Number(NumberValue::Decimal(notation)) => {
            assert_eq!(notation.parse::<f64>().unwrap(), 42.0);
        }
        other => panic!("not a decimal number: {:?}", other),
    }
}

#[test]
fn unknown_character_fails_where_it_stands() {
    let mut tokenizer = Tokenizer::new("@", "test");
    let error = tokenizer.scan_tokens().unwrap_err();
    assert_eq!(error.kind, ErrorKind::UnknownCharacter);
    assert_eq!(error.lexeme, "@");
    assert_eq!(error.line, 1);
    assert_eq!(error.column, 1);
    assert_eq!(error.context, "@");
    assert_eq!(error.filename, "test");
}

#[test]
fn letters_start_no_token() {
    let mut tokenizer = Tokenizer::new("ab\ncd", "test");
    let error = tokenizer.scan_tokens().unwrap_err();
    assert_eq!(error, Error::new("a", 1, 1, "ab", "test", ErrorKind::UnknownCharacter));
}

#[test]
fn second_line_counts_columns_from_one() {
    let mut tokenizer = Tokenizer::new("12\n34", "test");
    let tokens = tokenizer.scan_tokens().unwrap();
    assert_eq!(sorts(tokens), vec![("12", 1, 1), ("34", 2, 1), ("", 2, 0)]);

    let mut tokenizer = Tokenizer::new("( )\n  ; 7", "test");
    let tokens = tokenizer.scan_tokens().unwrap();
    assert_eq!(
        sorts(tokens),
        vec![("(", 1, 1), (")", 1, 3), (";", 2, 3), ("7", 2, 5), ("", 2, 0)]
    );
}

#[test]
fn every_symbol_has_its_sort() {
    let mut tokenizer = Tokenizer::new("(){}<>=,.;-+*/!", "test");
    let tokens = tokenizer.scan_tokens().unwrap();
    let expected = [
        ("(", TokenKind::Bracket),
        (")", TokenKind::Bracket),
        ("{", TokenKind::Bracket),
        ("}", TokenKind::Bracket),
        ("<", TokenKind::Bracket),
        (">=", TokenKind::Operator),
        (",", TokenKind::Punctuation),
        (".", TokenKind::Punctuation),
        (";", TokenKind::Punctuation),
        ("-", TokenKind::Operator),
        ("+", TokenKind::Operator),
        ("*", TokenKind::Operator),
        ("/", TokenKind::Operator),
        ("!", TokenKind::Operator),
        ("", TokenKind::Eof),
    ];
    assert_eq!(tokens.len(), expected.len());
    let mut column = 1;
    for (token, (lexeme, kind)) in tokens.iter().zip(expected.iter()) {
        assert_eq!(token.lexeme, *lexeme);
        assert_eq!(&token.kind, kind);
        assert_eq!(token.line, 1);
        if token.kind != TokenKind::Eof {
            assert_eq!(token.column, column);
        }
        column += lexeme.len();
    }
}

#[test]
fn equals_sign_joins_comparisons() {
    let mut tokenizer = Tokenizer::new("<= >= == = < >", "test");
    let tokens = tokenizer.scan_tokens().unwrap();
    assert_eq!(
        tokens,
        [
            Token { lexeme: "<=", line: 1, column: 1, kind: TokenKind::Operator },
            Token { lexeme: ">=", line: 1, column: 4, kind: TokenKind::Operator },
            Token { lexeme: "==", line: 1, column: 7, kind: TokenKind::Operator },
            Token { lexeme: "=", line: 1, column: 10, kind: TokenKind::Bracket },
            Token { lexeme: "<", line: 1, column: 12, kind: TokenKind::Bracket },
            Token { lexeme: ">", line: 1, column: 14, kind: TokenKind::Bracket },
            Token { lexeme: "", line: 1, column: 0, kind: TokenKind::Eof },
        ]
    );
}

#[test]
fn line_comment_ends_before_the_newline() {
    let mut tokenizer = Tokenizer::new("1 -- one\n2 --", "test");
    let tokens = tokenizer.scan_tokens().unwrap();
    assert_eq!(sorts(tokens), vec![("1", 1, 1), ("2", 2, 1), ("", 2, 0)]);
}

#[test]
fn single_minus_is_an_operator() {
    let mut tokenizer = Tokenizer::new("1 - 2", "test");
    let tokens = tokenizer.scan_tokens().unwrap();
    assert_eq!(sorts(tokens), vec![("1", 1, 1), ("-", 1, 3), ("2", 1, 5), ("", 1, 0)]);
    assert_eq!(tokens[1].kind, TokenKind::Operator);
}

#[test]
fn block_comment_spans_lines() {
    let mut tokenizer = Tokenizer::new("{- a\nb -} 7", "test");
    let tokens = tokenizer.scan_tokens().unwrap();
    assert_eq!(sorts(tokens), vec![("7", 2, 6), ("", 2, 0)]);
}

#[test]
fn block_comment_ends_at_the_first_closing() {
    let mut tokenizer = Tokenizer::new("{- a --}7 -} 8", "test");
    let tokens = tokenizer.scan_tokens().unwrap();
    assert_eq!(
        sorts(tokens),
        vec![("7", 1, 9), ("-", 1, 11), ("}", 1, 12), ("8", 1, 14), ("", 1, 0)]
    );
}

#[test]
fn block_comments_do_not_nest() {
    let mut tokenizer = Tokenizer::new("{- {- -} 1", "test");
    let tokens = tokenizer.scan_tokens().unwrap();
    assert_eq!(sorts(tokens), vec![("1", 1, 10), ("", 1, 0)]);
}

#[test]
fn brace_alone_is_a_bracket() {
    let mut tokenizer = Tokenizer::new("{ - }", "test");
    let tokens = tokenizer.scan_tokens().unwrap();
    assert_eq!(sorts(tokens), vec![("{", 1, 1), ("-", 1, 3), ("}", 1, 5), ("", 1, 0)]);
    assert_eq!(tokens[0].kind, TokenKind::Bracket);
}

#[test]
fn unclosed_block_comment_fails_at_its_opening() {
    let mut tokenizer = Tokenizer::new("1\n  {- never", "test");
    let error = tokenizer.scan_tokens().unwrap_err();
    assert_eq!(
        error,
        Error::new("{-", 2, 3, "  {- never", "test", ErrorKind::UnterminatedComment)
    );

    let mut tokenizer = Tokenizer::new("{-}", "test");
    let error = tokenizer.scan_tokens().unwrap_err();
    assert_eq!(error, Error::new("{-", 1, 1, "{-}", "test", ErrorKind::UnterminatedComment));

    let mut tokenizer = Tokenizer::new("{-", "test");
    let error = tokenizer.scan_tokens().unwrap_err();
    assert_eq!(error, Error::new("{-", 1, 1, "{-", "test", ErrorKind::UnterminatedComment));
}

#[test]
fn carriage_return_takes_no_column() {
    let mut tokenizer = Tokenizer::new("1\r\n2", "test");
    let tokens = tokenizer.scan_tokens().unwrap();
    assert_eq!(sorts(tokens), vec![("1", 1, 1), ("2", 2, 1), ("", 2, 0)]);

    let mut tokenizer = Tokenizer::new("1\r2", "test");
    let tokens = tokenizer.scan_tokens().unwrap();
    assert_eq!(sorts(tokens), vec![("1", 1, 1), ("2", 1, 2), ("", 1, 0)]);
}

#[test]
fn tab_takes_one_column() {
    let mut tokenizer = Tokenizer::new("\t1\t2", "test");
    let tokens = tokenizer.scan_tokens().unwrap();
    assert_eq!(sorts(tokens), vec![("1", 1, 2), ("2", 1, 4), ("", 1, 0)]);
}

#[test]
fn character_outside_ascii_is_unknown() {
    let mut tokenizer = Tokenizer::new("1 é", "test");
    let error = tokenizer.scan_tokens().unwrap_err();
    assert_eq!(error, Error::new("é", 1, 3, "1 é", "test", ErrorKind::UnknownCharacter));
}

#[test]
fn comment_may_hold_any_character() {
    let mut tokenizer = Tokenizer::new("{- é @ -}1 -- ü", "test");
    let tokens = tokenizer.scan_tokens().unwrap();
    assert_eq!(sorts(tokens), vec![("1", 1, 10), ("", 1, 0)]);
}

#[test]
fn first_fault_discards_the_tokens() {
    let mut tokenizer = Tokenizer::new("1 2\n3 @ 4 #", "test");
    let result = tokenizer.scan_tokens();
    assert_eq!(
        result,
        Err(Error::new("@", 2, 3, "3 @ 4 #", "test", ErrorKind::UnknownCharacter))
    );
}

#[test]
fn context_is_the_line_without_its_ending() {
    let mut tokenizer = Tokenizer::new("1\r\n  @ 2\r\n3", "test");
    let error = tokenizer.scan_tokens().unwrap_err();
    assert_eq!(error, Error::new("@", 2, 3, "  @ 2", "test", ErrorKind::UnknownCharacter));

    let mut tokenizer = Tokenizer::new("1\n\n@", "test");
    let error = tokenizer.scan_tokens().unwrap_err();
    assert_eq!(error, Error::new("@", 3, 1, "@", "test", ErrorKind::UnknownCharacter));
}

#[test]
fn run_scans_like_the_method() {
    let mut tokenizer = Tokenizer::new("(1)", "test");
    let tokens = tokenizer::run(&mut tokenizer).unwrap();
    assert_eq!(sorts(tokens), vec![("(", 1, 1), ("1", 1, 2), (")", 1, 3), ("", 1, 0)]);

    let mut tokenizer = Tokenizer::new("(#)", "test");
    let error = tokenizer::run(&mut tokenizer).unwrap_err();
    assert_eq!(error, Error::new("#", 1, 2, "(#)", "test", ErrorKind::UnknownCharacter));
}

#[test]
fn lexemes_stand_at_their_positions() {
    let source = "{- head -}\n(1.5e3 <= 0x1F) -- tail\r\n  12n;\t{ }\n";
    let mut tokenizer = Tokenizer::new(source, "test");
    let tokens = tokenizer.scan_tokens().unwrap();
    let lines: Vec<&str> = source.split('\n').collect();
    for token in &tokens[..tokens.len() - 1] {
        let line = lines[token.line - 1];
        let found = &line[token.column - 1..token.column - 1 + token.lexeme.len()];
        assert_eq!(found, token.lexeme);
    }
    let joined: String = tokens.iter().map(|token| token.lexeme).collect();
    assert_eq!(joined, "(1.5e3<=0x1F)12n;{}");
    assert_eq!(tokens.last().unwrap().kind, TokenKind::Eof);
    assert_eq!(tokens.last().unwrap().line, 4);
    assert_eq!(
        tokens.iter().filter(|token| token.kind == TokenKind::Eof).count(),
        1
    );
}
