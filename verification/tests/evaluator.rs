use markdown_html::evaluator::Evaluator;

#[test]
fn test_evaluate() {
    let evaluator = Evaluator::new(String::from(
        "Hello, World!
## Hi there
#Hi",
    ));
    let output = evaluator.evaluate();

    assert_eq!(output, "<p>Hello, World!</p><h2>Hi there</h2><p>#Hi</p>");
}

#[test]
fn evaluates_bold_italic() {
    let evaluator = Evaluator::new(String::from(
        "*Hi* **there**
# *Hi there**",
    ));
    let output = evaluator.evaluate();

    assert_eq!(
        output,
        "<p><i>Hi</i> <strong>there</strong></p><h1><i>Hi there</i>*</h1>"
    )
}

#[test]
fn evaluates_list() {
    let evaluator = Evaluator::new(String::from(
        "- Hi
- there
- # fake heading
# heading
1. first
2. second
4.fourth",
    ));
    let output = evaluator.evaluate();

    assert_eq!(
        output,
        "<ul><li>Hi</li><li>there</li><li># fake heading</li></ul><h1>heading</h1><ol><li>first</li><li>second</li></ol><p>4.fourth</p>"
    )
}

#[test]
fn evaluates_link() {
    let evaluator = Evaluator::new(String::from("[Google](https://google.com)"));
    let output = evaluator.evaluate();

    assert_eq!(output, "<p><a href=\"https://google.com\">Google</a></p>")
}
