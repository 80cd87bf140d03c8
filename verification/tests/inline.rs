use markdown_html::evaluator::Evaluator;
use markdown_html::lexer::{Lexer, Token};
use markdown_html::parser::{Expression, Parser};

fn text(s: &str) -> Expression {
    Expression::Text(s.to_string())
}

fn inline(source: &str) -> Expression {
    Parser::parse_expression(Lexer::new().tokenize(String::from(source)))
}

fn html(source: &str) -> String {
    Evaluator::evaluate_expression(inline(source))
}

#[test]
fn mismatched_emphasis_keeps_the_excess() {
    assert_eq!(
        inline("**word*"),
        Expression::Vec(vec![text("*"), Expression::Italic(Box::new(text("word")))])
    );
    assert_eq!(html("**word*"), "*<i>word</i>");
    assert_eq!(
        inline("*word**"),
        Expression::Vec(vec![Expression::Italic(Box::new(text("word"))), text("*")])
    );
    assert_eq!(html("*word**"), "<i>word</i>*");
}

#[test]
fn nested_emphasis() {
    assert_eq!(
        inline("**_word_**"),
        Expression::Bold(Box::new(Expression::Italic(Box::new(text("word")))))
    );
    assert_eq!(html("**_word_**"), "<strong><i>word</i></strong>");
}

#[test]
fn strength_goes_by_the_shorter_run() {
    assert_eq!(html("*a*"), "<i>a</i>");
    assert_eq!(html("_a_"), "<i>a</i>");
    assert_eq!(html("**a**"), "<strong>a</strong>");
    assert_eq!(html("__a__"), "<strong>a</strong>");
    assert_eq!(html("***a***"), "<strong><i>a</i></strong>");
    assert_eq!(html("*****a*****"), "<strong><i>a</i></strong>");
    assert_eq!(html("*****a***"), "**<strong><i>a</i></strong>");
    assert_eq!(html("***a*****"), "<strong><i>a</i></strong>**");
    assert_eq!(html("____a__"), "__<strong>a</strong>");
}

#[test]
fn a_run_that_nothing_closes_is_text() {
    assert_eq!(inline("*Hi"), text("*Hi"));
    assert_eq!(inline("Hi**"), text("Hi**"));
    assert_eq!(inline("a _b c"), text("a _b c"));
    assert_eq!(inline("*a _b"), text("*a _b"));
    assert_eq!(html("***"), "***");
}

#[test]
fn markers_do_not_close_each_other() {
    assert_eq!(inline("*a_"), text("*a_"));
    assert_eq!(html("*a _b* c_"), "<i>a _b</i> c_");
}

#[test]
fn what_lies_inside_a_run_that_nothing_closes_is_still_parsed() {
    assert_eq!(html("_a *b* c"), "_a <i>b</i> c");
    assert_eq!(html("*a [b](c)"), "*a <a href=\"c\">b</a>");
}

#[test]
fn text_gathers_into_one_node() {
    assert_eq!(inline("a b.c-d (e) 12 #f]"), text("a b.c-d (e) 12 #f]"));
    assert_eq!(inline(""), text(""));
}

#[test]
fn several_nodes_form_a_sequence() {
    assert_eq!(
        inline("a *b* c"),
        Expression::Vec(vec![text("a "), Expression::Italic(Box::new(text("b"))), text(" c")])
    );
    assert_eq!(
        inline("x ***a**"),
        Expression::Vec(vec![text("x "), text("*"), Expression::Bold(Box::new(text("a")))])
    );
}

#[test]
fn empty_emphasis_wraps_empty_text() {
    assert_eq!(
        inline("* *"),
        Expression::Italic(Box::new(text(" ")))
    );
    assert_eq!(
        Parser::parse_expression(vec![Token::Asterisk(1), Token::Asterisk(1)]),
        Expression::Italic(Box::new(text("")))
    );
}

#[test]
fn links() {
    assert_eq!(
        inline("[Google](https://example.test)"),
        Expression::Link(Box::new(text("Google")), Box::new(text("https://example.test")))
    );
    assert_eq!(html("[Google](https://example.test)"), "<a href=\"https://example.test\">Google</a>");
    assert_eq!(html("see [*a*](b) now"), "see <a href=\"b\"><i>a</i></a> now");
    assert_eq!(html("[]()"), "<a href=\"\"></a>");
}

#[test]
fn incomplete_links_stay_as_written() {
    assert_eq!(inline("[title"), text("[title"));
    assert_eq!(inline("[title]"), text("[title]"));
    assert_eq!(inline("[title]https://example.test"), text("[title]https://example.test"));
    assert_eq!(inline("[title](https://example.test"), text("[title](https://example.test"));
    assert_eq!(inline("[title] (x)"), text("[title] (x)"));
    assert_eq!(html("a [b *c*"), "a [b <i>c</i>");
    assert_eq!(html("[a][b](c)"), "[a][b](c)");
    assert_eq!(html("[a]x [b](c)"), "[a]x <a href=\"c\">b</a>");
}

#[test]
fn an_incomplete_link_is_one_node() {
    assert_eq!(
        inline("a [b *c*"),
        Expression::Vec(vec![
            text("a "),
            Expression::Vec(vec![text("[b "), Expression::Italic(Box::new(text("c")))]),
        ])
    );
}

#[test]
fn emphasis_inside_an_incomplete_link_stays_inside() {
    assert_eq!(html("[q [*y](a]b*c"), "[q [*y](a]b*c");
    assert_eq!(html("[*a]x*"), "[*a]x*");
}

#[test]
fn only_the_first_line_is_read() {
    let tokens = vec![
        Token::Word("a".to_string()),
        Token::NewLine,
        Token::Word("b".to_string()),
    ];
    assert_eq!(Parser::parse_expression(tokens), text("a"));
    let tokens = vec![
        Token::Asterisk(1),
        Token::Word("a".to_string()),
        Token::NewLine,
        Token::Asterisk(1),
    ];
    assert_eq!(Parser::parse_expression(tokens), text("*a"));
}

#[test]
fn runs_without_markers_are_text() {
    let tokens = vec![Token::Asterisk(0), Token::Word("a".to_string()), Token::Asterisk(2)];
    assert_eq!(Parser::parse_expression(tokens), text("a**"));
}

#[test]
fn renders_every_kind_of_node() {
    let tree = Expression::Vec(vec![
        text("a<b"),
        Expression::Bold(Box::new(text("b"))),
        Expression::Italic(Box::new(text("i"))),
        Expression::BoldItalic(Box::new(text("bi"))),
        Expression::Link(Box::new(text("t")), Box::new(text("u"))),
        Expression::Vec(vec![]),
    ]);
    assert_eq!(
        Evaluator::evaluate_expression(tree),
        "a<b<strong>b</strong><i>i</i><strong><i>bi</i></strong><a href=\"u\">t</a>"
    );
}
