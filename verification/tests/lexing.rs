use minicc::errors::CompileError;
use minicc::lexer::{lex, Token, TokenValue};
use minicc::parser::tokens_well_formed;
use std::collections::VecDeque;

fn kinds(source: &str) -> Vec<Token> {
    lex(source).expect("lexing failed").iter().map(|t| t.token).collect()
}

#[test]
fn keywords_lex_as_keywords() {
    assert_eq!(kinds("int"), vec![Token::IntKeyword]);
    assert_eq!(kinds("void"), vec![Token::VoidKeyword]);
    assert_eq!(kinds("return"), vec![Token::ReturnKeyword]);
}

#[test]
fn keyword_prefixes_lex_as_identifiers() {
    let tokens = lex("intx voidy returns").expect("lexing failed");
    let names: Vec<Option<String>> = tokens.iter().map(|t| t.data.clone()).collect();
    assert!(tokens.iter().all(|t| t.token == Token::Identifier));
    assert_eq!(
        names,
        vec![
            Some(String::from("intx")),
            Some(String::from("voidy")),
            Some(String::from("returns"))
        ]
    );
}

#[test]
fn identifier_with_digits_and_underscore() {
    let tokens = lex("_main2 int2").expect("lexing failed");
    assert_eq!(tokens.len(), 2);
    assert_eq!(tokens[0].token, Token::Identifier);
    assert_eq!(tokens[0].data, Some(String::from("_main2")));
    assert_eq!(tokens[1].token, Token::Identifier);
    assert_eq!(tokens[1].data, Some(String::from("int2")));
}

#[test]
fn hyphen_pairs_prefer_two_hyphens() {
    assert_eq!(kinds("-"), vec![Token::Hyphen]);
    assert_eq!(kinds("--"), vec![Token::TwoHyphens]);
    assert_eq!(kinds("---"), vec![Token::TwoHyphens, Token::Hyphen]);
    assert_eq!(kinds("----"), vec![Token::TwoHyphens, Token::TwoHyphens]);
    assert_eq!(kinds("- -"), vec![Token::Hyphen, Token::Hyphen]);
}

#[test]
fn punctuation_kinds() {
    assert_eq!(
        kinds("(){};~"),
        vec![
            Token::OpenParenthesis,
            Token::CloseParenthesis,
            Token::OpenBrace,
            Token::CloseBrace,
            Token::Semicolon,
            Token::Tilde
        ]
    );
}

#[test]
fn punctuation_carries_no_payload() {
    let tokens = lex("int main(void){return 1;}").expect("lexing failed");
    for t in tokens.iter() {
        let dynamic = t.token == Token::Identifier || t.token == Token::Constant;
        assert_eq!(t.data.is_some(), dynamic);
    }
    assert!(tokens_well_formed(&tokens));
}

#[test]
fn digits_followed_by_letter_do_not_lex() {
    assert_eq!(lex("123abc").err(), Some(CompileError::BadToken));
    assert_eq!(lex("int main(void) { return 1x; }").err(), Some(CompileError::BadToken));
}

#[test]
fn whitespace_is_skipped() {
    assert_eq!(kinds(" \t\r\n int \n"), vec![Token::IntKeyword]);
    assert_eq!(kinds(""), vec![]);
    assert_eq!(kinds("   "), vec![]);
}

#[test]
fn constant_payload_is_the_lexeme() {
    let tokens = lex("42 007").expect("lexing failed");
    assert_eq!(tokens[0].data, Some(String::from("42")));
    assert_eq!(tokens[1].data, Some(String::from("007")));
}

#[test]
fn ill_formed_stream_is_detected() {
    let mut tokens: VecDeque<TokenValue> = VecDeque::new();
    tokens.push_back(TokenValue { token: Token::Constant, data: None });
    assert!(!tokens_well_formed(&tokens));
    let mut good: VecDeque<TokenValue> = VecDeque::new();
    good.push_back(TokenValue { token: Token::Semicolon, data: None });
    assert!(tokens_well_formed(&good));
}
