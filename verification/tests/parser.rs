use markdown_html::parser::{Expression, Parser, Statement};

#[test]
fn parses_heading() {
    let parser = Parser::new(String::from(
        "## Hello
#Hi",
    ));
    let statements = parser.parse();

    assert_eq!(
        statements,
        vec![
            Statement::Heading(2, Expression::Text("Hello".to_string())),
            Statement::Plain(Expression::Text("#Hi".to_string())),
        ]
    )
}

#[test]
fn parses_bold_italic() {
    let parser = Parser::new(String::from(
        "*Hi* **there**
***Hello**",
    ));
    let statements = parser.parse();

    assert_eq!(
        statements,
        vec![
            Statement::Plain(Expression::Vec(vec![
                Expression::Italic(Box::new(Expression::Text("Hi".to_string()))),
                Expression::Text(" ".to_string()),
                Expression::Bold(Box::new(Expression::Text("there".to_string())))
            ])),
            Statement::Plain(Expression::Vec(vec![
                Expression::Text("*".to_string()),
                Expression::Bold(Box::new(Expression::Text("Hello".to_string())))
            ]))
        ]
    )
}

#[test]
fn parses_list() {
    let parser = Parser::new(String::from(
        "- Hi
1. Hello
1.Hello
1 Hi
1.",
    ));
    let statements = parser.parse();

    assert_eq!(
        statements,
        vec![
            Statement::UnorderedListItem(Expression::Text("Hi".to_string())),
            Statement::OrderedListItem(1, Expression::Text("Hello".to_string())),
            Statement::Plain(Expression::Text("1.Hello".to_string())),
            Statement::Plain(Expression::Text("1 Hi".to_string())),
            Statement::Plain(Expression::Text("1.".to_string())),
        ]
    )
}

#[test]
fn parses_link() {
    let parser = Parser::new(String::from(
        "[title](https://example.test)
[title something else
[title]https://example.test
[title](https://example.test]
[title]https://example.test",
    ));
    let statements = parser.parse();

    assert_eq!(
        statements,
        vec![
            Statement::Plain(Expression::Link(
                Box::new(Expression::Text("title".to_string())),
                Box::new(Expression::Text("https://example.test".to_string()))
            )),
            Statement::Plain(Expression::Text("[title something else".to_string())),
            Statement::Plain(Expression::Text("[title]https://example.test".to_string())),
            Statement::Plain(Expression::Text(
                "[title](https://example.test]".to_string()
            )),
            Statement::Plain(Expression::Text("[title]https://example.test".to_string())),
        ]
    )
}

#[test]
fn parses_task_list() {
    let parsers = Parser::new(String::from(
        "- [ ] Hi
- [x] Hello
- [ hi there
- [x hi there
- [x]hi there",
    ));
    let statements = parsers.parse();

    assert_eq!(
        statements,
        vec![
            Statement::TaskListItem(false, Expression::Text("Hi".to_string())),
            Statement::TaskListItem(true, Expression::Text("Hello".to_string())),
            Statement::UnorderedListItem(Expression::Text("[ hi there".to_string())),
            Statement::UnorderedListItem(Expression::Text("[x hi there".to_string())),
            Statement::UnorderedListItem(Expression::Text("[x]hi there".to_string())),
        ]
    )
}
