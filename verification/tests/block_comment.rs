use ape_core::lexer::lex;
use ape_core::token::Token;
use ape_core::token::TokenType::Semi;

fn get_tokens(src: &str) -> Vec<Token> {
    lex(src, 1).unwrap()
}

fn get_token(mut tokens: Vec<Token>, line: usize) -> Vec<Token> {
    tokens.push(Token::eof(line));
    tokens
}

#[test]
fn test_block_comment_1() {
    let right = get_tokens("/* hi */");
    let left = get_token(vec![], 1);
    assert_eq!(left, right, "test block comment");
}

#[test]
fn test_block_comment_2() {
    let right = get_tokens("/* hi \n */");
    let left = get_token(vec![], 1);
    assert_eq!(left, right, "test block comment");
}

#[test]
fn test_block_comment_3() {
    let right = get_tokens("/* hi */ ;");
    let left = get_token(
        vec![Token {
            token: Semi,
            lexeme: ";".to_string(),
            line: 1,
            start: 9,
            len: 1,
            value: None,
        }],
        1,
    );
    assert_eq!(left, right, "test block comment");
}
