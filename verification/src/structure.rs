//! The shape of what the parser gives: one statement for each line, and no
//! sequence of fewer than two nodes.

use crate::inline::{
    address_end, broken_link_end, closing_run, is_emphasis, is_link, lemma_first_of_kind,
    lemma_step_end, line_end, literal_span, parsed_inline, scan, step, step_end, tidy, title_end,
};
use crate::lexer::SpecToken;
use crate::parser::{parsed, parsed_from, parsed_line, SpecExpr, SpecStatement};
use vstd::prelude::*;

verus! {

/// Whether every sequence in the expression holds two nodes or more.
pub open spec fn well_formed(expression: SpecExpr) -> bool
    decreases expression,
{
    match expression {
        SpecExpr::Text(_) => true,
        SpecExpr::Bold(body) => well_formed(*body),
        SpecExpr::Italic(body) => well_formed(*body),
        SpecExpr::BoldItalic(body) => well_formed(*body),
        SpecExpr::Link(title, address) => well_formed(*title) && well_formed(*address),
        SpecExpr::Sequence(nodes) => nodes.len() >= 2 && forall|i: int|
            0 <= i < nodes.len() ==> well_formed(#[trigger] nodes[i]),
    }
}

/// Whether every node of the list is well formed.
pub open spec fn all_well_formed(nodes: Seq<SpecExpr>) -> bool {
    forall|i: int| 0 <= i < nodes.len() ==> well_formed(#[trigger] nodes[i])
}

/// The body of a statement.
pub open spec fn statement_body(statement: SpecStatement) -> SpecExpr {
    match statement {
        SpecStatement::Heading(_, body) => body,
        SpecStatement::OrderedListItem(_, body) => body,
        SpecStatement::UnorderedListItem(body) => body,
        SpecStatement::TaskListItem(_, body) => body,
        SpecStatement::Plain(body) => body,
    }
}

/// The expression that well-formed nodes stand for is well formed.
pub proof fn lemma_tidy_well_formed(nodes: Seq<SpecExpr>)
    requires
        all_well_formed(nodes),
    ensures
        well_formed(tidy(nodes)),
{
}

/// What the construct at `from` adds to well-formed nodes is well formed.
pub proof fn lemma_step_well_formed(
    tokens: Seq<SpecToken>,
    from: int,
    end: int,
    nodes: Seq<SpecExpr>,
)
    requires
        0 <= from < end <= tokens.len(),
        all_well_formed(nodes),
    ensures
        all_well_formed(step(tokens, from, end, nodes)),
    decreases end - from, 0int,
{
    let no_nodes = Seq::<SpecExpr>::empty();
    let close = closing_run(tokens, from, end);
    let bracket = title_end(tokens, from, end);
    let paren = address_end(tokens, from, end);
    let span_end = broken_link_end(tokens, from, end);
    lemma_first_of_kind(tokens, tokens[from], from + 1, end);
    lemma_first_of_kind(tokens, SpecToken::RBracket, from + 1, end);
    if is_emphasis(tokens, from, end) {
        lemma_scan_well_formed(tokens, from + 1, close, no_nodes);
        lemma_tidy_well_formed(scan(tokens, from + 1, close, no_nodes));
    } else if tokens[from] is LBracket && is_link(tokens, from, end) {
        lemma_first_of_kind(tokens, SpecToken::RParen, bracket + 2, end);
        lemma_scan_well_formed(tokens, from + 1, bracket, no_nodes);
        lemma_scan_well_formed(tokens, bracket + 2, paren, no_nodes);
        lemma_tidy_well_formed(scan(tokens, from + 1, bracket, no_nodes));
        lemma_tidy_well_formed(scan(tokens, bracket + 2, paren, no_nodes));
    } else if tokens[from] is LBracket {
        let literal = literal_span(tokens, from, bracket, span_end);
        let opened = seq![SpecExpr::Text(seq!['['])];
        lemma_scan_well_formed(literal, 1, span_end - from, opened);
        lemma_tidy_well_formed(scan(literal, 1, span_end - from, opened));
    }
}

/// What a range of tokens adds to well-formed nodes is well formed.
pub proof fn lemma_scan_well_formed(
    tokens: Seq<SpecToken>,
    from: int,
    end: int,
    nodes: Seq<SpecExpr>,
)
    requires
        0 <= from <= end <= tokens.len(),
        all_well_formed(nodes),
    ensures
        all_well_formed(scan(tokens, from, end, nodes)),
    decreases end - from, 1int,
{
    if from < end {
        lemma_step_end(tokens, from, end);
        lemma_step_well_formed(tokens, from, end, nodes);
        lemma_scan_well_formed(
            tokens,
            step_end(tokens, from, end),
            end,
            step(tokens, from, end, nodes),
        );
    }
}

/// The inline expression of a line holds no sequence of fewer than two
/// nodes.
pub proof fn lemma_inline_well_formed(tokens: Seq<SpecToken>, from: int)
    requires
        0 <= from <= tokens.len(),
    ensures
        well_formed(parsed_inline(tokens, from)),
{
    lemma_first_of_kind(tokens, SpecToken::NewLine, from, tokens.len() as int);
    lemma_scan_well_formed(tokens, from, line_end(tokens, from), Seq::empty());
}

/// The body of the statement of a line holds no sequence of fewer than two
/// nodes.
pub proof fn lemma_line_well_formed(tokens: Seq<SpecToken>, from: int, end: int)
    requires
        0 <= from <= end <= tokens.len(),
    ensures
        well_formed(statement_body(parsed_line(tokens, from, end))),
{
    let no_nodes = Seq::<SpecExpr>::empty();
    if from + 2 <= end {
        lemma_scan_well_formed(tokens, from + 2, end, no_nodes);
    }
    if from + 3 <= end {
        lemma_scan_well_formed(tokens, from + 3, end, no_nodes);
    }
    if from + 6 <= end {
        lemma_scan_well_formed(tokens, from + 6, end, no_nodes);
    }
    lemma_scan_well_formed(tokens, from, end, no_nodes);
}

/// The number of lines of `tokens` from the line that begins at `from` on:
/// one more than the number of `NewLine` tokens.
pub open spec fn line_count(tokens: Seq<SpecToken>, from: int) -> nat
    decreases tokens.len() - from,
{
    if from >= tokens.len() {
        1
    } else if tokens[from] is NewLine {
        1 + line_count(tokens, from + 1)
    } else {
        line_count(tokens, from + 1)
    }
}

/// Tokens that are no `NewLine` do not count as lines.
pub proof fn lemma_line_count_skips(tokens: Seq<SpecToken>, from: int, to: int)
    requires
        0 <= from <= to <= tokens.len(),
        forall|k: int| from <= k < to ==> !(#[trigger] tokens[k] is NewLine),
    ensures
        line_count(tokens, from) == line_count(tokens, to),
    decreases to - from,
{
    if from < to {
        lemma_line_count_skips(tokens, from + 1, to);
    }
}

/// The parser gives one statement for each line, and the body of each holds
/// no sequence of fewer than two nodes.
pub proof fn lemma_parsed_from_shape(tokens: Seq<SpecToken>, from: int)
    requires
        0 <= from <= tokens.len(),
    ensures
        parsed_from(tokens, from).len() == line_count(tokens, from),
        forall|k: int|
            0 <= k < parsed_from(tokens, from).len() ==> well_formed(
                statement_body(#[trigger] parsed_from(tokens, from)[k]),
            ),
    decreases tokens.len() - from,
{
    let end = line_end(tokens, from);
    lemma_first_of_kind(tokens, SpecToken::NewLine, from, tokens.len() as int);
    assert forall|k: int| from <= k < end implies !(#[trigger] tokens[k] is NewLine) by {}
    lemma_line_count_skips(tokens, from, end);
    lemma_line_well_formed(tokens, from, end);
    if end < tokens.len() {
        lemma_parsed_from_shape(tokens, end + 1);
    }
}

/// A document has one statement for each of its lines, and no statement
/// holds a sequence of fewer than two nodes.
pub proof fn lemma_parsed_shape(tokens: Seq<SpecToken>)
    ensures
        parsed(tokens).len() == line_count(tokens, 0),
        forall|k: int|
            0 <= k < parsed(tokens).len() ==> well_formed(
                statement_body(#[trigger] parsed(tokens)[k]),
            ),
{
    lemma_parsed_from_shape(tokens, 0);
}

} // verus!
