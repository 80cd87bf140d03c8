use markdown_html::lexer::{Lexer, Token};

fn tokens_of(text: &str) -> Vec<Token> {
    Lexer::new().tokenize(String::from(text))
}

#[test]
fn classifies_single_characters() {
    assert_eq!(Token::new('\n'), Token::NewLine);
    assert_eq!(Token::new('#'), Token::Heading(1));
    assert_eq!(Token::new(' '), Token::WhiteSpace(1));
    assert_eq!(Token::new('*'), Token::Asterisk(1));
    assert_eq!(Token::new('_'), Token::Underscore(1));
    assert_eq!(Token::new('-'), Token::Hyphen);
    assert_eq!(Token::new('.'), Token::Dot);
    assert_eq!(Token::new('('), Token::LParen);
    assert_eq!(Token::new(')'), Token::RParen);
    assert_eq!(Token::new('['), Token::LBracket);
    assert_eq!(Token::new(']'), Token::RBracket);
    assert_eq!(Token::new('0'), Token::Number(0));
    assert_eq!(Token::new('7'), Token::Number(7));
    assert_eq!(Token::new('9'), Token::Number(9));
    assert_eq!(Token::new('a'), Token::Word("a".to_string()));
    assert_eq!(Token::new('\t'), Token::Word("\t".to_string()));
    assert_eq!(Token::new('é'), Token::Word("é".to_string()));
}

#[test]
fn merges_runs_of_one_kind() {
    assert_eq!(tokens_of("***"), vec![Token::Asterisk(3)]);
    assert_eq!(tokens_of("__"), vec![Token::Underscore(2)]);
    assert_eq!(tokens_of("####"), vec![Token::Heading(4)]);
    assert_eq!(tokens_of("   "), vec![Token::WhiteSpace(3)]);
    assert_eq!(tokens_of("abc"), vec![Token::Word("abc".to_string())]);
    assert_eq!(tokens_of("120"), vec![Token::Number(120)]);
}

#[test]
fn never_merges_line_breaks_or_punctuation() {
    assert_eq!(tokens_of("\n\n"), vec![Token::NewLine, Token::NewLine]);
    assert_eq!(tokens_of(".."), vec![Token::Dot, Token::Dot]);
    assert_eq!(tokens_of("--"), vec![Token::Hyphen, Token::Hyphen]);
    assert_eq!(tokens_of("(("), vec![Token::LParen, Token::LParen]);
    assert_eq!(tokens_of("))"), vec![Token::RParen, Token::RParen]);
    assert_eq!(tokens_of("[["), vec![Token::LBracket, Token::LBracket]);
    assert_eq!(tokens_of("]]"), vec![Token::RBracket, Token::RBracket]);
}

#[test]
fn keeps_different_markers_apart() {
    assert_eq!(
        tokens_of("**_word_**"),
        vec![
            Token::Asterisk(2),
            Token::Underscore(1),
            Token::Word("word".to_string()),
            Token::Underscore(1),
            Token::Asterisk(2),
        ]
    );
}

#[test]
fn no_neighbours_of_one_repeatable_kind() {
    let tokens = tokens_of("a b  **c__ 12 ##3#\n- [x] d.e");
    for pair in tokens.windows(2) {
        let repeatable = matches!(
            pair[0],
            Token::Word(_)
                | Token::Heading(_)
                | Token::WhiteSpace(_)
                | Token::Asterisk(_)
                | Token::Underscore(_)
                | Token::Number(_)
        );
        assert!(!(repeatable && pair[0].expect(&pair[1])));
    }
}

#[test]
fn numbers_lose_leading_zeros() {
    assert_eq!(tokens_of("007"), vec![Token::Number(7)]);
    assert_eq!(tokens_of("0"), vec![Token::Number(0)]);
}

#[test]
fn numbers_stop_at_the_largest_value() {
    let largest = usize::MAX.to_string();
    assert_eq!(tokens_of(&largest), vec![Token::Number(usize::MAX)]);
    let beyond = format!("{}0", largest);
    assert_eq!(tokens_of(&beyond), vec![Token::Number(usize::MAX)]);
    assert_eq!(
        tokens_of("99999999999999999999999999999999"),
        vec![Token::Number(usize::MAX)]
    );
}

#[test]
fn empty_text_has_no_token() {
    assert_eq!(tokens_of(""), Vec::<Token>::new());
}

#[test]
fn a_new_lexer_has_nothing_to_merge() {
    assert_eq!(Lexer::new().combine_tokens(), Vec::<Token>::new());
    assert_eq!(Lexer::default().combine_tokens(), Vec::<Token>::new());
}

#[test]
fn tokens_stand_for_their_characters() {
    assert_eq!(Token::Word("Hi".to_string()).to_string(), "Hi");
    assert_eq!(Token::Heading(3).to_string(), "###");
    assert_eq!(Token::WhiteSpace(2).to_string(), "  ");
    assert_eq!(Token::Asterisk(4).to_string(), "****");
    assert_eq!(Token::Underscore(2).to_string(), "__");
    assert_eq!(Token::Number(0).to_string(), "0");
    assert_eq!(Token::Number(9).to_string(), "9");
    assert_eq!(Token::Number(10).to_string(), "10");
    assert_eq!(Token::Number(4096).to_string(), "4096");
    assert_eq!(Token::Number(usize::MAX).to_string(), usize::MAX.to_string());
    assert_eq!(Token::Dot.to_string(), ".");
    assert_eq!(Token::Hyphen.to_string(), "-");
    assert_eq!(Token::NewLine.to_string(), "\n");
    assert_eq!(Token::LParen.to_string(), "(");
    assert_eq!(Token::RParen.to_string(), ")");
    assert_eq!(Token::LBracket.to_string(), "[");
    assert_eq!(Token::RBracket.to_string(), "]");
    assert_eq!(Token::Heading(0).to_string(), "");
}

#[test]
fn writes_after_what_is_there() {
    let mut out = String::from("a");
    Token::Asterisk(2).write_to(&mut out);
    Token::Number(42).write_to(&mut out);
    assert_eq!(out, "a**42");
}

#[test]
fn turns_tokens_into_words() {
    assert_eq!(Token::LBracket.to_word(), Token::Word("[".to_string()));
    assert_eq!(Token::Asterisk(2).to_word(), Token::Word("**".to_string()));
    assert_eq!(Token::Number(15).to_word(), Token::Word("15".to_string()));
}

#[test]
fn compares_kinds_only() {
    assert!(Token::Asterisk(1).expect(&Token::Asterisk(5)));
    assert!(Token::Word("a".to_string()).expect(&Token::Word("b".to_string())));
    assert!(Token::Dot.expect(&Token::Dot));
    assert!(!Token::Asterisk(1).expect(&Token::Underscore(1)));
    assert!(!Token::LBracket.expect(&Token::RBracket));
    assert!(!Token::Number(1).expect(&Token::Word("1".to_string())));
}

#[test]
fn copies_tokens_and_reads_counts() {
    assert_eq!(Token::Word("ab".to_string()).duplicate(), Token::Word("ab".to_string()));
    assert_eq!(Token::Number(3).duplicate(), Token::Number(3));
    assert_eq!(Token::RParen.duplicate(), Token::RParen);
    assert_eq!(Token::Asterisk(3).count(), 3);
    assert_eq!(Token::WhiteSpace(2).count(), 2);
    assert_eq!(Token::Number(8).count(), 0);
    assert_eq!(Token::Dot.count(), 0);
}

#[test]
fn plain_text_comes_back_from_its_tokens() {
    let text = "Hello, *world* [a](b) - 1. x_y\n## 42 (ok)";
    let mut out = String::new();
    for token in tokens_of(text) {
        out.push_str(&token.to_string());
    }
    assert_eq!(out, text);
}
