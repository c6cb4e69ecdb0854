use minilisp::{parse, parse_list, tokenize, Object, ParserError, Token};

fn literal(w: &str) -> Option<u64> {
    w.parse::<f64>().ok().map(f64::to_bits)
}

#[test]
fn tokenize_1() {
    let test_input = "(+ 1 2)";
    assert_eq!(
        tokenize(test_input, &literal).unwrap(),
        vec![
            Token::LeftParenthesa,
            Token::Symbol("+".to_owned()),
            Token::Number(1.0f64.to_bits()),
            Token::Number(2.0f64.to_bits()),
            Token::RightParenthesa
        ]
    )
}

#[test]
fn parse_1() {

    let list = parse("(+ 1 2)", &literal).unwrap();

    assert_eq!(
        list,
        Object::List(vec![
            Object::Symbol("+".to_owned()),
            Object::Number(1.0f64.to_bits()),
            Object::Number(2.0f64.to_bits()),
        ])
    )
}

#[test]
fn tokenize_splits_parentheses_without_spaces() {
    assert_eq!(
        tokenize("(a(b))\t2.5", &literal).unwrap(),
        vec![
            Token::LeftParenthesa,
            Token::Symbol("a".to_owned()),
            Token::LeftParenthesa,
            Token::Symbol("b".to_owned()),
            Token::RightParenthesa,
            Token::RightParenthesa,
            Token::Number(2.5f64.to_bits()),
        ]
    )
}

#[test]
fn parse_nested_groups() {
    assert_eq!(
        parse("(a (b 1) c)", &literal).unwrap(),
        Object::List(vec![
            Object::Symbol("a".to_owned()),
            Object::List(vec![Object::Symbol("b".to_owned()), Object::Number(1.0f64.to_bits())]),
            Object::Symbol("c".to_owned()),
        ])
    )
}

#[test]
fn parse_requires_opening_parenthesis() {
    assert_eq!(
        parse("+ 1 2", &literal),
        Err(ParserError::ExpectedOtherToken(
            Token::LeftParenthesa,
            Some(Token::Symbol("+".to_owned()))
        ))
    );
}

#[test]
fn parse_empty_source() {
    assert_eq!(parse("", &literal), Ok(Object::List(vec![])));
}

#[test]
fn parse_list_takes_reversed_tokens() {
    let mut tokens = vec![
        Token::RightParenthesa,
        Token::Symbol("x".to_owned()),
        Token::LeftParenthesa,
    ];
    assert_eq!(
        parse_list(&mut tokens),
        Ok(Object::List(vec![Object::Symbol("x".to_owned())]))
    );
    assert!(tokens.is_empty());
}

#[test]
fn parse_rejects_unclosed_group() {
    assert_eq!(
        parse("(+ 1 2", &literal),
        Err(ParserError::ExpectedOtherToken(Token::RightParenthesa, None))
    );
}

#[test]
fn parse_rejects_extra_close() {
    assert_eq!(
        parse("(+ 1 2))", &literal),
        Err(ParserError::ExpectedOtherToken(
            Token::LeftParenthesa,
            Some(Token::RightParenthesa)
        ))
    );
}

#[test]
fn parse_keeps_first_group_of_several() {
    assert_eq!(
        parse("(a) b", &literal),
        Ok(Object::List(vec![Object::Symbol("a".to_owned())]))
    );
}

#[test]
fn parser_error_message_names_tokens() {
    assert_eq!(
        ParserError::ExpectedOtherToken(Token::RightParenthesa, None).message(),
        "expected ) token, found the end of the input"
    );
}
