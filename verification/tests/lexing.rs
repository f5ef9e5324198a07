use oatmilk::error::ParseError;
use oatmilk::lexer::{characters, next_token, parse_int, tokenize, ws};
use oatmilk::tokens::{CompareResult, Token, TokenStream};

#[test]
fn parse_decimal() {
    assert_eq!(parse_int("120").unwrap(), (120, 3));
    assert_eq!(parse_int("123450").unwrap(), (123450, 6));
}

#[test]
fn parse_decimal_negative() {
    assert_eq!(parse_int("-10").unwrap(), (-10, 3));
}

#[test]
fn parse_binary() {
    assert_eq!(parse_int("0b100").unwrap(), (4, 5));
    assert_eq!(parse_int("0b10011").unwrap(), (19, 7));
}

#[test]
fn parse_hex() {
    assert_eq!(parse_int("-0x1f").unwrap(), (-0x1f, 5));
}

#[test]
fn lex_ex_1() {
    let tokens = tokenize("var x = null;").expect("every character belongs to a token");
    assert_eq!(
        tokens,
        vec![Token::Var, Token::Ident("x".to_string()), Token::Eq, Token::Null, Token::Semi]
    );
}

#[test]
fn lex_ex_2() {
    let tokens = tokenize("for (var x = 1; x < 10; x = x + 1) { console.log(x); }")
        .expect("every character belongs to a token");
    let x = Token::Ident("x".to_string());
    assert_eq!(
        tokens,
        vec![
            Token::For,
            Token::LParen,
            Token::Var,
            x.clone(),
            Token::Eq,
            Token::Int(1),
            Token::Semi,
            x.clone(),
            Token::Lt,
            Token::Int(10),
            Token::Semi,
            x.clone(),
            Token::Eq,
            x.clone(),
            Token::Plus,
            Token::Int(1),
            Token::RParen,
            Token::LBrace,
            Token::Ident("console".to_string()),
            Token::Dot,
            Token::Ident("log".to_string()),
            Token::LParen,
            x.clone(),
            Token::RParen,
            Token::Semi,
            Token::RBrace,
        ]
    );
}

#[test]
fn numbers_group_their_digits_with_underscores() {
    assert_eq!(parse_int("1_000_000"), Some((1_000_000, 9)));
    assert_eq!(parse_int("0xff_ff"), Some((0xffff, 7)));
    assert_eq!(parse_int("0o17"), Some((15, 4)));
    assert_eq!(parse_int("0O7_7"), Some((63, 5)));
    assert_eq!(parse_int("0B1_"), Some((1, 4)));
    assert_eq!(parse_int("12ab"), Some((12, 2)));
}

#[test]
fn numbers_have_to_fit() {
    assert_eq!(parse_int("9223372036854775807"), Some((i64::MAX, 19)));
    assert_eq!(parse_int("9223372036854775808"), None);
    assert_eq!(parse_int("-9223372036854775807"), Some((-i64::MAX, 20)));
    assert_eq!(parse_int("0x7fffffffffffffff"), Some((i64::MAX, 18)));
    // too large for hexadecimal: what is left is the decimal `0`
    assert_eq!(parse_int("0x8000000000000000"), Some((0, 1)));
    assert_eq!(parse_int("0xg"), Some((0, 1)));
    assert_eq!(parse_int(""), None);
    assert_eq!(parse_int("-"), None);
    assert_eq!(parse_int("x"), None);
}

#[test]
fn every_reserved_word_is_a_token() {
    let tokens = tokenize(
        "struct null NULL void int string bool else if if? for while var return global length new true false",
    )
    .unwrap();
    assert_eq!(
        tokens,
        vec![
            Token::Struct,
            Token::Null,
            Token::Null,
            Token::TVoid,
            Token::TInt,
            Token::TString,
            Token::TBool,
            Token::Else,
            Token::If,
            Token::Ifq,
            Token::For,
            Token::While,
            Token::Var,
            Token::Return,
            Token::Global,
            Token::Length,
            Token::New,
            Token::True,
            Token::False,
        ]
    );
}

#[test]
fn a_word_that_starts_like_a_reserved_word_is_an_identifier() {
    assert_eq!(
        tokenize("integer _if if_ x1").unwrap(),
        vec![
            Token::Ident("integer".to_string()),
            Token::Ident("_if".to_string()),
            Token::Ident("if_".to_string()),
            Token::Ident("x1".to_string()),
        ]
    );
}

#[test]
fn punctuation_takes_the_longest_token() {
    assert_eq!(
        tokenize(". ; , { } ( ) [ ] + - * = == ! != ~ < <= << > >= >> >>> & | [&] [|] -> ?").unwrap(),
        vec![
            Token::Dot,
            Token::Semi,
            Token::Comma,
            Token::LBrace,
            Token::RBrace,
            Token::LParen,
            Token::RParen,
            Token::LBracket,
            Token::RBracket,
            Token::Plus,
            Token::Dash,
            Token::Star,
            Token::Eq,
            Token::Eqeq,
            Token::Bang,
            Token::BangEq,
            Token::Tilde,
            Token::Lt,
            Token::Lteq,
            Token::Ltlt,
            Token::Gt,
            Token::Gteq,
            Token::Gtgt,
            Token::Gtgtgt,
            Token::Ampersand,
            Token::Bar,
            Token::IAnd,
            Token::IOr,
            Token::Arrow,
            Token::Question,
        ]
    );
    assert_eq!(
        tokenize(">>>>").unwrap(),
        vec![Token::Gtgtgt, Token::Gt]
    );
    assert_eq!(
        tokenize("[&").unwrap(),
        vec![Token::LBracket, Token::Ampersand]
    );
}

#[test]
fn string_literals_take_escapes() {
    assert_eq!(
        tokenize(r#""a\n\t\r\\\"\'\0b""#).unwrap(),
        vec![Token::String("a\n\t\r\\\"'\0b".to_string())]
    );
    assert_eq!(tokenize("\"\"").unwrap(), vec![Token::String(String::new())]);
    assert_eq!(tokenize("\"h\u{e9}\"").unwrap(), vec![Token::String("h\u{e9}".to_string())]);
}

#[test]
fn what_starts_no_token_fails_at_its_position() {
    assert_eq!(tokenize("x = $"), Err(ParseError::ParserError(4)));
    assert_eq!(tokenize("  \"open"), Err(ParseError::ParserError(2)));
    assert_eq!(tokenize("\"bad \\q\""), Err(ParseError::ParserError(0)));
    assert_eq!(tokenize("\"tail\\"), Err(ParseError::ParserError(0)));
    assert_eq!(tokenize("99999999999999999999"), Err(ParseError::ParserError(0)));
    assert_eq!(tokenize(""), Ok(vec![]));
    assert_eq!(tokenize(" \t\r\n"), Ok(vec![]));
}

#[test]
fn tokens_are_found_one_at_a_time() {
    let chars = characters("if? (x)");
    assert_eq!(chars.len(), 7);
    assert_eq!(next_token(&chars, 0), Some((Token::Ifq, 3)));
    assert_eq!(ws(&chars, 3), 4);
    assert_eq!(next_token(&chars, 4), Some((Token::LParen, 5)));
    assert_eq!(next_token(&chars, 5), Some((Token::Ident("x".to_string()), 6)));
    assert_eq!(next_token(&chars, 7), None);
    assert_eq!(next_token(&chars, 3), None);
    assert_eq!(ws(&chars, 7), 7);
}

#[test]
fn streams_compare_by_prefix() {
    let a = vec![Token::Var, Token::Ident("x".to_string()), Token::Eq];
    let b = vec![Token::Var, Token::Ident("x".to_string())];
    let c = vec![Token::Var, Token::Ident("y".to_string())];
    let a = TokenStream { stream: &a };
    let b = TokenStream { stream: &b };
    let c = TokenStream { stream: &c };
    assert_eq!(a.len(), 3);
    assert_eq!(a.compare(&b), CompareResult::Match);
    assert_eq!(b.compare(&a), CompareResult::Incomplete);
    assert_eq!(a.compare(&c), CompareResult::Error);
    assert_eq!(c.compare(&a), CompareResult::Error);
    assert_eq!(b.compare(&b), CompareResult::Match);
    assert_eq!(a.compare_no_case(&b), CompareResult::Match);
}
