use num_bigint::{BigInt, BigUint, ToBigInt};
use tokenizer::chars::{fold, is_same_char, to_digit, CharClass};
use tokenizer::number::{parse_radix, BigNat};
use tokenizer::{Error, ErrorKind, NumberValue, Token, TokenKind, Tokenizer};

fn only_token<'a>(tokens: &'a [Token<'a>]) -> &'a Token<'a> {
    assert_eq!(tokens.len(), 2);
    assert_eq!(tokens[1].kind, TokenKind::Eof);
    &tokens[0]
}

fn decimal_notation(source: &str) -> (String, String) {
    let mut tokenizer = Tokenizer::new(source, "test");
    let tokens = tokenizer.scan_tokens().unwrap();
    let token = only_token(tokens);
    match &token.kind {
        TokenKind::Number(NumberValue::Decimal(notation)) => {
            (token.lexeme.to_string(), notation.to_string())
        }
        other => panic!("not a decimal number: {:?}", other),
    }
}

fn big_value(source: &str) -> BigInt {
    let mut tokenizer = Tokenizer::new(source, "test");
    let tokens = tokenizer.scan_tokens().unwrap();
    let token = only_token(tokens);
    assert_eq!(token.lexeme, source);
    match &token.kind {
        TokenKind::BigInt(value) => BigInt::from(BigUint::new(value.limbs().clone())),
        other => panic!("not a big integer: {:?}", other),
    }
}

#[test]
fn zero_alone_is_decimal() {
    assert_eq!(decimal_notation("0"), ("0".to_string(), "0".to_string()));
    assert_eq!(decimal_notation("01"), ("01".to_string(), "01".to_string()));
    assert_eq!(decimal_notation("0.5"), ("0.5".to_string(), "0.5".to_string()));
    assert_eq!("0.5".parse::<f64>().unwrap(), 0.5);
}

#[test]
fn capital_x_is_no_prefix() {
    let mut tokenizer = Tokenizer::new("0X1", "test");
    let error = tokenizer.scan_tokens().unwrap_err();
    assert_eq!(error, Error::new("X", 1, 2, "0X1", "test", ErrorKind::UnknownCharacter));
}

#[test]
fn exponent_belongs_to_the_number() {
    assert_eq!(decimal_notation("1e5"), ("1e5".to_string(), "1e5".to_string()));
    assert_eq!(decimal_notation("1E5"), ("1E5".to_string(), "1E5".to_string()));
    assert_eq!(decimal_notation("2.5e-3"), ("2.5e-3".to_string(), "2.5e-3".to_string()));
    assert_eq!(decimal_notation("12e007"), ("12e007".to_string(), "12e007".to_string()));
    assert_eq!("1e5".parse::<f64>().unwrap(), 100000.0);
    assert_eq!("2.5e-3".parse::<f64>().unwrap(), 0.0025);
}

#[test]
fn exponent_mark_without_digits_adds_nothing() {
    assert_eq!(decimal_notation("1e"), ("1e".to_string(), "1".to_string()));
    assert_eq!(decimal_notation("1e-"), ("1e-".to_string(), "1".to_string()));
    assert_eq!(decimal_notation("7.25E"), ("7.25E".to_string(), "7.25".to_string()));
    assert_eq!("7.25".parse::<f64>().unwrap(), 7.25);
}

#[test]
fn plus_is_no_part_of_an_exponent() {
    let mut tokenizer = Tokenizer::new("1e+5", "test");
    let tokens = tokenizer.scan_tokens().unwrap();
    assert_eq!(
        tokens,
        [
            Token {
                lexeme: "1e",
                line: 1,
                column: 1,
                kind: TokenKind::Number(NumberValue::Decimal("1")),
            },
            Token { lexeme: "+", line: 1, column: 3, kind: TokenKind::Operator },
            Token {
                lexeme: "5",
                line: 1,
                column: 4,
                kind: TokenKind::Number(NumberValue::Decimal("5")),
            },
            Token { lexeme: "", line: 1, column: 0, kind: TokenKind::Eof },
        ]
    );
}

#[test]
fn lone_minus_behind_the_mark_is_taken() {
    let mut tokenizer = Tokenizer::new("1e--5", "test");
    let tokens = tokenizer.scan_tokens().unwrap();
    assert_eq!(
        tokens,
        [
            Token {
                lexeme: "1e-",
                line: 1,
                column: 1,
                kind: TokenKind::Number(NumberValue::Decimal("1")),
            },
            Token { lexeme: "-", line: 1, column: 4, kind: TokenKind::Operator },
            Token {
                lexeme: "5",
                line: 1,
                column: 5,
                kind: TokenKind::Number(NumberValue::Decimal("5")),
            },
            Token { lexeme: "", line: 1, column: 0, kind: TokenKind::Eof },
        ]
    );
}

#[test]
fn second_point_starts_punctuation() {
    let mut tokenizer = Tokenizer::new("1.2.3", "test");
    let tokens = tokenizer.scan_tokens().unwrap();
    assert_eq!(
        tokens,
        [
            Token {
                lexeme: "1.2",
                line: 1,
                column: 1,
                kind: TokenKind::Number(NumberValue::Decimal("1.2")),
            },
            Token { lexeme: ".", line: 1, column: 4, kind: TokenKind::Punctuation },
            Token {
                lexeme: "3",
                line: 1,
                column: 5,
                kind: TokenKind::Number(NumberValue::Decimal("3")),
            },
            Token { lexeme: "", line: 1, column: 0, kind: TokenKind::Eof },
        ]
    );
}

#[test]
fn prefixes_select_the_radix() {
    let cases: [(&str, u64); 9] = [
        ("0b0", 0),
        ("0B11", 3),
        ("0o17", 15),
        ("0O777", 511),
        ("0xff", 255),
        ("0xFF", 255),
        ("0xdeadBEEF", 0xdead_beef),
        ("0x0000000000000000001", 1),
        ("0xFFFFFFFFFFFFFFFF", u64::MAX),
    ];
    for (source, value) in cases {
        let mut tokenizer = Tokenizer::new(source, "test");
        let tokens = tokenizer.scan_tokens().unwrap();
        assert_eq!(
            only_token(tokens),
            &Token {
                lexeme: source,
                line: 1,
                column: 1,
                kind: TokenKind::Number(NumberValue::Integer(value)),
            }
        );
    }
}

#[test]
fn digits_of_the_radix_end_the_literal() {
    let mut tokenizer = Tokenizer::new("0b102", "test");
    let tokens = tokenizer.scan_tokens().unwrap();
    assert_eq!(
        tokens,
        [
            Token {
                lexeme: "0b10",
                line: 1,
                column: 1,
                kind: TokenKind::Number(NumberValue::Integer(2)),
            },
            Token {
                lexeme: "2",
                line: 1,
                column: 5,
                kind: TokenKind::Number(NumberValue::Decimal("2")),
            },
            Token { lexeme: "", line: 1, column: 0, kind: TokenKind::Eof },
        ]
    );
}

#[test]
fn literal_beyond_64_bits_is_too_large() {
    let mut tokenizer = Tokenizer::new("0x10000000000000000", "test");
    let error = tokenizer.scan_tokens().unwrap_err();
    assert_eq!(
        error,
        Error::new(
            "0x10000000000000000",
            1,
            1,
            "0x10000000000000000",
            "test",
            ErrorKind::NumberTooLarge
        )
    );

    let mut tokenizer = Tokenizer::new(" 0o2000000000000000000000n;", "test");
    let error = tokenizer.scan_tokens().unwrap_err();
    assert_eq!(
        error,
        Error::new(
            "0o2000000000000000000000n",
            1,
            2,
            " 0o2000000000000000000000n;",
            "test",
            ErrorKind::NumberTooLarge
        )
    );

    let mut tokenizer = Tokenizer::new("0o1777777777777777777777", "test");
    let tokens = tokenizer.scan_tokens().unwrap();
    assert_eq!(
        only_token(tokens).kind,
        TokenKind::Number(NumberValue::Integer(u64::MAX))
    );
}

#[test]
fn big_integers_keep_every_digit() {
    assert_eq!(big_value("0n"), BigInt::from(0));
    assert_eq!(big_value("007n"), BigInt::from(7));
    assert_eq!(big_value("4294967296n"), BigInt::from(4294967296u64));
    assert_eq!(
        big_value("123456789012345678901234567890n"),
        "123456789012345678901234567890".parse::<BigInt>().unwrap()
    );
    assert_eq!(big_value("0xFFn"), BigInt::from(255));
    assert_eq!(big_value("0o17n"), BigInt::from(15));
    assert_eq!(big_value("0x0n"), BigInt::from(0));
    assert_eq!(big_value("0xFFFFFFFFFFFFFFFFn"), BigInt::from(u64::MAX));
}

#[test]
fn big_integers_are_held_as_trimmed_limbs() {
    let limbs_of = |source: &str| -> Vec<u32> {
        let mut tokenizer = Tokenizer::new(source, "test");
        let tokens = tokenizer.scan_tokens().unwrap();
        match &tokens[0].kind {
            TokenKind::BigInt(value) => value.limbs().clone(),
            other => panic!("not a big integer: {:?}", other),
        }
    };
    assert_eq!(limbs_of("0n"), Vec::<u32>::new());
    assert_eq!(limbs_of("0b0n"), Vec::<u32>::new());
    assert_eq!(limbs_of("4294967295n"), vec![4294967295]);
    assert_eq!(limbs_of("4294967296n"), vec![0, 1]);
    assert_eq!(limbs_of("0x100000000n"), vec![0, 1]);
    assert_eq!(limbs_of("112500000000n"), vec![830850304, 26]);
    assert_eq!(limbs_of("0xFFFFFFFFFFFFFFFFn"), vec![u32::MAX, u32::MAX]);
    assert_eq!(limbs_of("18446744073709551616n"), vec![0, 0, 1]);
}

#[test]
fn numbers_of_64_bits_have_at_most_two_limbs() {
    assert_eq!(BigNat::from_u64(0).limbs(), &Vec::<u32>::new());
    assert_eq!(BigNat::from_u64(1).limbs(), &vec![1]);
    assert_eq!(BigNat::from_u64(4294967295).limbs(), &vec![4294967295]);
    assert_eq!(BigNat::from_u64(4294967296).limbs(), &vec![0, 1]);
    assert_eq!(BigNat::from_u64(112500000000).limbs(), &vec![830850304, 26]);
    assert_eq!(BigNat::from_u64(u64::MAX).limbs(), &vec![u32::MAX, u32::MAX]);
    for value in [0, 1, 255, 4294967295, 4294967296, 4294967297, 1 << 63, u64::MAX - 1, u64::MAX] {
        let widened = value.to_bigint().unwrap();
        assert_eq!(BigNat::from_u64(value).limbs(), &widened.to_u32_digits().1);
    }
}

#[test]
fn suffix_n_behind_an_exponent_is_malformed() {
    let mut tokenizer = Tokenizer::new("1e5n", "test");
    let error = tokenizer.scan_tokens().unwrap_err();
    assert_eq!(error, Error::new("1e5n", 1, 1, "1e5n", "test", ErrorKind::MalformedBigInt));

    let mut tokenizer = Tokenizer::new("(12en)", "test");
    let error = tokenizer.scan_tokens().unwrap_err();
    assert_eq!(error, Error::new("12en", 1, 2, "(12en)", "test", ErrorKind::MalformedBigInt));

    let mut tokenizer = Tokenizer::new("3E-n", "test");
    let error = tokenizer.scan_tokens().unwrap_err();
    assert_eq!(error, Error::new("3E-n", 1, 1, "3E-n", "test", ErrorKind::MalformedBigInt));
}

#[test]
fn digits_have_values_up_to_the_radix() {
    assert_eq!(to_digit('0', 2), Some(0));
    assert_eq!(to_digit('1', 2), Some(1));
    assert_eq!(to_digit('2', 2), None);
    assert_eq!(to_digit('7', 8), Some(7));
    assert_eq!(to_digit('8', 8), None);
    assert_eq!(to_digit('9', 10), Some(9));
    assert_eq!(to_digit('a', 10), None);
    assert_eq!(to_digit('a', 16), Some(10));
    assert_eq!(to_digit('F', 16), Some(15));
    assert_eq!(to_digit('g', 16), None);
    assert_eq!(to_digit('z', 36), Some(35));
    assert_eq!(to_digit('Z', 36), Some(35));
    assert_eq!(to_digit('/', 36), None);
    assert_eq!(to_digit(':', 36), None);
    assert_eq!(to_digit('@', 36), None);
    assert_eq!(to_digit('[', 36), None);
    assert_eq!(to_digit('`', 36), None);
    assert_eq!(to_digit('{', 36), None);
    assert_eq!(to_digit('٣', 10), None);
    for c in ['0', '5', 'a', 'Z', '-', '\n', 'é'] {
        for radix in [2, 8, 10, 16, 36] {
            assert_eq!(to_digit(c, radix), c.to_digit(radix));
        }
    }
}

#[test]
fn folding_joins_the_cases_of_a_letter() {
    assert_eq!(fold('A'), 'a' as u32);
    assert_eq!(fold('Z'), 'z' as u32);
    assert_eq!(fold('a'), 'a' as u32);
    assert_eq!(fold('@'), '@' as u32);
    assert_eq!(fold('['), '[' as u32);
    assert_eq!(fold('É'), 'É' as u32);
    assert!(is_same_char('E', 'e', true));
    assert!(is_same_char('e', 'e', true));
    assert!(!is_same_char('E', 'e', false));
    assert!(is_same_char('e', 'e', false));
    assert!(!is_same_char('f', 'e', true));
}

#[test]
fn classes_admit_their_characters() {
    assert!(CharClass::Digit(10).contains('7'));
    assert!(!CharClass::Digit(10).contains('a'));
    assert!(CharClass::Digit(16).contains('a'));
    assert!(!CharClass::Digit(2).contains('2'));
    assert!(CharClass::NotNewline.contains('\r'));
    assert!(CharClass::NotNewline.contains(' '));
    assert!(!CharClass::NotNewline.contains('\n'));
}

#[test]
fn digit_strings_are_read_in_their_radix() {
    let chars: Vec<char> = "xx1010ff777".chars().collect();
    assert_eq!(parse_radix(&chars, 2, 6, 2), Some(10));
    assert_eq!(parse_radix(&chars, 2, 6, 10), Some(1010));
    assert_eq!(parse_radix(&chars, 2, 8, 16), Some(0x1010ff));
    assert_eq!(parse_radix(&chars, 8, 11, 8), Some(0o777));
    assert_eq!(parse_radix(&chars, 4, 4, 10), Some(0));

    let most: Vec<char> = "18446744073709551615".chars().collect();
    assert_eq!(parse_radix(&most, 0, most.len(), 10), Some(u64::MAX));
    let more: Vec<char> = "18446744073709551616".chars().collect();
    assert_eq!(parse_radix(&more, 0, more.len(), 10), None);
    let many: Vec<char> = "99999999999999999999999".chars().collect();
    assert_eq!(parse_radix(&many, 0, many.len(), 10), None);
}
