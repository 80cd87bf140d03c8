use markdown_html::evaluator::{render_document, Evaluator};
use markdown_html::lexer::{Lexer, Token};
use markdown_html::parser::{Expression, Parser, Statement};

fn text(s: &str) -> Expression {
    Expression::Text(s.to_string())
}

fn parse(source: &str) -> Vec<Statement> {
    Parser::new(String::from(source)).parse()
}

fn lines(source: &str) -> String {
    Evaluator::new(String::from(source)).eval()
}

#[test]
fn heading() {
    assert_eq!(render_document("## Hi there"), "<h2>Hi there</h2>");
    assert_eq!(render_document("############ deep"), "<h12>deep</h12>");
    assert_eq!(parse("# "), vec![Statement::Heading(1, text(""))]);
}

#[test]
fn nested_emphasis_in_a_paragraph() {
    assert_eq!(render_document("**_word_**"), "<p><strong><i>word</i></strong></p>");
}

#[test]
fn link_well_formed() {
    assert_eq!(
        render_document("[Google](https://example.test)"),
        "<p><a href=\"https://example.test\">Google</a></p>"
    );
}

#[test]
fn link_malformed() {
    assert_eq!(
        render_document("[title]https://example.test"),
        "<p>[title]https://example.test</p>"
    );
}

#[test]
fn mismatched_emphasis_in_a_paragraph() {
    assert_eq!(render_document("**word*"), "<p>*<i>word</i></p>");
}

#[test]
fn ordered_list_stops_at_a_gap() {
    assert_eq!(
        parse("1. a\n2. b\n4. c"),
        vec![
            Statement::OrderedListItem(1, text("a")),
            Statement::OrderedListItem(2, text("b")),
            Statement::OrderedListItem(4, text("c")),
        ]
    );
    assert_eq!(
        render_document("1. a\n2. b\n4. c"),
        "<ol><li>a</li><li>b</li></ol>4. <p>c</p>"
    );
    assert_eq!(lines("1. a\n2. b\n4. c"), "<ol>\n<li>a</li>\n<li>b</li>\n</ol>\n4. c");
}

#[test]
fn a_list_may_begin_with_any_number() {
    assert_eq!(render_document("7. a\n8. b"), "<ol><li>a</li><li>b</li></ol>");
    assert_eq!(render_document("3. a"), "<ol><li>a</li></ol>");
    assert_eq!(lines("3. a"), "<ol>\n<li>a</li>\n</ol>");
}

#[test]
fn the_statement_after_a_stray_item_is_read_anew() {
    assert_eq!(
        render_document("1. a\n3. b\n4. c\n5. d"),
        "<ol><li>a</li></ol>3. <p>b</p><ol><li>c</li><li>d</li></ol>"
    );
    assert_eq!(
        render_document("1. a\n1. b\n- c"),
        "<ol><li>a</li></ol>1. <p>b</p><ul><li>c</li></ul>"
    );
}

#[test]
fn an_ordered_list_at_the_end_is_an_ordered_list() {
    assert_eq!(render_document("x\n1. a\n2. b"), "<p>x</p><ol><li>a</li><li>b</li></ol>");
}

#[test]
fn bullet_and_task_lists() {
    assert_eq!(render_document("- a\n- b"), "<ul><li>a</li><li>b</li></ul>");
    assert_eq!(lines("- a\n- b"), "<ul>\n<li>a</li>\n<li>b</li>\n</ul>");
    assert_eq!(
        render_document("- [x] done\n- [ ] open"),
        "<ul><li>[x] done</li><li>[ ] open</li></ul>"
    );
    assert_eq!(
        lines("- [x] done\n- [ ] open"),
        "<ul>\n<li>[x] done</li>\n<li>[ ] open</li>\n</ul>"
    );
}

#[test]
fn lists_of_different_kinds_are_different_lists() {
    assert_eq!(
        render_document("- a\n- [ ] b\n- c\n1. d"),
        "<ul><li>a</li></ul><ul><li>[ ] b</li></ul><ul><li>c</li></ul><ol><li>d</li></ol>"
    );
    assert_eq!(
        render_document("1. a\n- b\n2. c"),
        "<ol><li>a</li></ol><ul><li>b</li></ul><ol><li>c</li></ol>"
    );
}

#[test]
fn malformed_block_markers_stay_in_the_text() {
    assert_eq!(render_document("#Hi"), "<p>#Hi</p>");
    assert_eq!(render_document("#"), "<p>#</p>");
    assert_eq!(render_document("1.Hello"), "<p>1.Hello</p>");
    assert_eq!(render_document("1 Hi"), "<p>1 Hi</p>");
    assert_eq!(render_document("1."), "<p>1.</p>");
    assert_eq!(render_document("1"), "<p>1</p>");
    assert_eq!(render_document("-x"), "<p>-x</p>");
    assert_eq!(render_document("-"), "<p>-</p>");
    assert_eq!(render_document(" - a"), "<p> - a</p>");
}

#[test]
fn malformed_check_boxes_stay_in_the_item() {
    assert_eq!(
        parse("- [y] a\n- [  ] b\n- [x]\n- [\n- [x] \n- "),
        vec![
            Statement::UnorderedListItem(text("[y] a")),
            Statement::UnorderedListItem(text("[  ] b")),
            Statement::UnorderedListItem(text("[x]")),
            Statement::UnorderedListItem(text("[")),
            Statement::TaskListItem(true, text("")),
            Statement::UnorderedListItem(text("")),
        ]
    );
    assert_eq!(render_document("- [x](u)"), "<ul><li><a href=\"u\">x</a></li></ul>");
}

#[test]
fn unclosed_constructs_lose_no_character() {
    for source in [
        "*Hi",
        "Hi**",
        "_a *b",
        "[title",
        "[title]",
        "[title](https://example.test",
        "a ] b ) c ( d",
        "1.Hello",
        "#Hi",
        "-x [y",
    ] {
        assert_eq!(render_document(source), format!("<p>{}</p>", source));
        assert_eq!(lines(source), format!("<p>{}</p>", source));
    }
}

#[test]
fn one_statement_for_each_line() {
    assert_eq!(parse(""), vec![Statement::Plain(text(""))]);
    assert_eq!(parse("a\n"), vec![Statement::Plain(text("a")), Statement::Plain(text(""))]);
    assert_eq!(parse("\n\n").len(), 3);
    assert_eq!(parse("a\nb\nc").len(), 3);
    assert_eq!(render_document(""), "<p></p>");
    assert_eq!(render_document("a\n\nb"), "<p>a</p><p></p><p>b</p>");
    assert_eq!(lines("a\n\nb"), "<p>a</p>\n<p></p>\n<p>b</p>");
}

#[test]
fn rendering_is_repeatable() {
    let source = "# T\n- a\n- *b*\n1. c\n3. d\n[e](f) **g*";
    assert_eq!(render_document(source), render_document(source));
    assert_eq!(
        render_document(source),
        Evaluator::new(String::from(source)).evaluate()
    );
    assert_eq!(lines(source), lines(source));
}

#[test]
fn text_is_not_escaped() {
    assert_eq!(render_document("a < b & c"), "<p>a < b & c</p>");
}

#[test]
fn parses_one_line() {
    let tokens = Lexer::new().tokenize(String::from("## Hi\nrest"));
    assert_eq!(Parser::parse_line(tokens), Statement::Heading(2, text("Hi")));
    assert_eq!(Parser::parse_line(vec![]), Statement::Plain(text("")));
    assert_eq!(
        Parser::parse_line(vec![Token::Heading(1), Token::WhiteSpace(0), Token::Word("a".to_string())]),
        Statement::Plain(text("#a"))
    );
    assert_eq!(
        Parser::parse_line(vec![Token::Heading(0), Token::WhiteSpace(1), Token::Word("a".to_string())]),
        Statement::Plain(text(" a"))
    );
}

#[test]
fn renders_block_by_block() {
    let statements = parse("- a\n- b\n# c\n1. d\n5. e\nf");
    let (html, next) = Evaluator::evaluate_statement(&statements, 0);
    assert_eq!((html.as_str(), next), ("<ul><li>a</li><li>b</li></ul>", 2));
    let (html, next) = Evaluator::evaluate_statement(&statements, 1);
    assert_eq!((html.as_str(), next), ("<ul><li>b</li></ul>", 2));
    let (html, next) = Evaluator::evaluate_statement(&statements, 2);
    assert_eq!((html.as_str(), next), ("<h1>c</h1>", 3));
    let (html, next) = Evaluator::evaluate_statement(&statements, 3);
    assert_eq!((html.as_str(), next), ("<ol><li>d</li></ol>5. <p>e</p>", 5));
    let (html, next) = Evaluator::evaluate_statement(&statements, 5);
    assert_eq!((html.as_str(), next), ("<p>f</p>", 6));
}
