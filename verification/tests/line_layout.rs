use markdown_html::evaluator::Evaluator;

#[test]
fn evaluates_heading() {
    let evaluator = Evaluator::new(String::from(
        "# heading
## heading2
### heading3
plain
# **heading**
# *heading*
***paragraph***",
    ));
    let result = evaluator.eval();

    assert_eq!(
        result,
        "<h1>heading</h1>
<h2>heading2</h2>
<h3>heading3</h3>
<p>plain</p>
<h1><strong>heading</strong></h1>
<h1><i>heading</i></h1>
<p><strong><i>paragraph</i></strong></p>"
    )
}

#[test]
fn evalutates_next() {
    let evaluator = Evaluator::new(String::from("**something** else"));
    let result = evaluator.eval();

    assert_eq!(result, "<p><strong>something</strong> else</p>")
}

#[test]
fn evaluates_ordered_list() {
    let evaluator = Evaluator::new(String::from(
        "1. first
2. second",
    ));
    let result = evaluator.eval();

    assert_eq!(
        result,
        String::from(
            "<ol>
<li>first</li>
<li>second</li>
</ol>"
        )
    );

    let evaluator = Evaluator::new(String::from(
        "1. first
2. second
# heading",
    ));
    let result = evaluator.eval();

    assert_eq!(
        result,
        String::from(
            "<ol>
<li>first</li>
<li>second</li>
</ol>
<h1>heading</h1>"
        )
    );

    let evaluator = Evaluator::new(String::from(
        "1. first
3. second
# heading",
    ));
    let result = evaluator.eval();

    assert_eq!(
        result,
        "<ol>
<li>first</li>
</ol>
3. second
<h1>heading</h1>"
    )
}
