use markdown_html::lexer::{Lexer, Token};

#[test]
fn parses_word() {
    let lexer = Lexer::new();
    let tokens = lexer.tokenize(String::from(
        "Hello
## Hi** - - 1.",
    ));

    assert_eq!(
        tokens,
        vec![
            Token::Word("Hello".to_string()),
            Token::NewLine,
            Token::Heading(2),
            Token::WhiteSpace(1),
            Token::Word("Hi".to_string()),
            Token::Asterisk(2),
            Token::WhiteSpace(1),
            Token::Hyphen,
            Token::WhiteSpace(1),
            Token::Hyphen,
            Token::WhiteSpace(1),
            Token::Number(1),
            Token::Dot,
        ]
    );
}

#[test]
fn lexes_list() {
    let lexer = Lexer::new();
    let tokens = lexer.tokenize(String::from("[title][https://example.test]"));

    assert_eq!(
        tokens,
        vec![
            Token::LBracket,
            Token::Word("title".to_string()),
            Token::RBracket,
            Token::LBracket,
            Token::Word("https://example".to_string()),
            Token::Dot,
            Token::Word("test".to_string()),
            Token::RBracket
        ]
    );
}
