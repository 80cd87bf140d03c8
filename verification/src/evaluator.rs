//! The renderer: from the syntax tree to HTML.
//!
//! Text is written as it stands; nothing is escaped. The nodes of a
//! sequence follow one another with nothing between them. Neighbouring list
//! items form one list: bullet items and task items by being neighbours,
//! numbered items as long as each number is the one before plus one. A task
//! item shows its state as `[x] ` or `[ ] ` before its text.
//!
//! Two layouts are offered. The compact one writes block after block with
//! nothing between them; the other one writes every block, and every item of
//! a list, on a line of its own.

use crate::lexer::tokenized;
use crate::parser::{
    lemma_view_of_sequence, parsed, Expression, Parser, SpecExpr, SpecStatement, Statement,
};
use crate::text::{decimal, push_char, push_decimal};
use vstd::prelude::*;

verus! {

/// How the blocks of a document are set one after the other.
#[derive(Clone, Copy, Debug, PartialEq, Eq)]
pub enum Layout {
    /// Nothing stands between two blocks, nor between the items of a list.
    Compact,
    /// Every block, every item and every list tag stands on its own line.
    Lines,
}

/// The HTML of an inline expression.
pub open spec fn expr_html(expression: SpecExpr) -> Seq<char>
    decreases expression,
{
    match expression {
        SpecExpr::Text(text) => text,
        SpecExpr::Bold(body) => "<strong>"@ + expr_html(*body) + "</strong>"@,
        SpecExpr::Italic(body) => "<i>"@ + expr_html(*body) + "</i>"@,
        SpecExpr::BoldItalic(body) => "<strong><i>"@ + expr_html(*body) + "</i></strong>"@,
        SpecExpr::Link(title, address) => "<a href=\""@ + expr_html(*address) + "\">"@ + expr_html(
            *title,
        ) + "</a>"@,
        SpecExpr::Sequence(nodes) => exprs_html(nodes),
    }
}

/// The HTML of the nodes of a sequence: one after the other.
pub open spec fn exprs_html(nodes: Seq<SpecExpr>) -> Seq<char>
    decreases nodes,
{
    if nodes.len() == 0 {
        Seq::empty()
    } else {
        exprs_html(nodes.drop_last()) + expr_html(nodes.last())
    }
}

/// What stands between two blocks, and between the items of a list.
pub open spec fn separator(layout: Layout) -> Seq<char> {
    match layout {
        Layout::Compact => Seq::empty(),
        Layout::Lines => seq!['\n'],
    }
}

/// The HTML of a heading.
pub open spec fn heading_html(level: nat, body: SpecExpr) -> Seq<char> {
    "<h"@ + decimal(level) + ">"@ + expr_html(body) + "</h"@ + decimal(level) + ">"@
}

/// The HTML of a paragraph.
pub open spec fn paragraph_html(body: SpecExpr) -> Seq<char> {
    "<p>"@ + expr_html(body) + "</p>"@
}

/// The HTML of one item of a list.
pub open spec fn item_html(statement: SpecStatement) -> Seq<char> {
    match statement {
        SpecStatement::OrderedListItem(_, body) => "<li>"@ + expr_html(body) + "</li>"@,
        SpecStatement::UnorderedListItem(body) => "<li>"@ + expr_html(body) + "</li>"@,
        SpecStatement::TaskListItem(checked, body) => "<li>"@ + (if checked {
            "[x] "@
        } else {
            "[ ] "@
        }) + expr_html(body) + "</li>"@,
        _ => Seq::empty(),
    }
}

/// Whether `next` goes on with the list that `last` belongs to: a bullet
/// item after a bullet item, a task item after a task item, a numbered item
/// after the item with the number before.
pub open spec fn continues_list(last: SpecStatement, next: SpecStatement) -> bool {
    match (last, next) {
        (SpecStatement::UnorderedListItem(_), SpecStatement::UnorderedListItem(_)) => true,
        (SpecStatement::TaskListItem(_, _), SpecStatement::TaskListItem(_, _)) => true,
        (SpecStatement::OrderedListItem(a, _), SpecStatement::OrderedListItem(b, _)) => b == a + 1,
        _ => false,
    }
}

/// One past the last item of the list that begins at `from`.
pub open spec fn list_end(statements: Seq<SpecStatement>, from: int) -> int
    decreases statements.len() - from,
{
    if from + 1 < statements.len() && continues_list(statements[from], statements[from + 1]) {
        list_end(statements, from + 1)
    } else {
        from + 1
    }
}

/// The HTML of the items `statements[from..to)`.
pub open spec fn items_html(
    statements: Seq<SpecStatement>,
    from: int,
    to: int,
    layout: Layout,
) -> Seq<char>
    decreases to - from,
{
    if from >= to {
        Seq::empty()
    } else if from + 1 == to {
        item_html(statements[from])
    } else {
        items_html(statements, from, to - 1, layout) + separator(layout) + item_html(
            statements[to - 1],
        )
    }
}

/// The HTML of the list `statements[from..to)`: numbered where its first
/// item is.
pub open spec fn list_html(
    statements: Seq<SpecStatement>,
    from: int,
    to: int,
    layout: Layout,
) -> Seq<char> {
    let items = separator(layout) + items_html(statements, from, to, layout) + separator(layout);
    if statements[from] is OrderedListItem {
        "<ol>"@ + items + "</ol>"@
    } else {
        "<ul>"@ + items + "</ul>"@
    }
}

/// Whether a numbered item follows the numbered list that begins at `from`
/// without going on with it.
pub open spec fn has_stray_item(statements: Seq<SpecStatement>, from: int) -> bool {
    let end = list_end(statements, from);
    statements[from] is OrderedListItem && end < statements.len()
        && statements[end] is OrderedListItem
}

/// The HTML of a numbered item that follows a list without going on with
/// it: the number as it was written, then its text, which the compact
/// layout sets as a paragraph.
pub open spec fn stray_item_html(statement: SpecStatement, layout: Layout) -> Seq<char> {
    match statement {
        SpecStatement::OrderedListItem(number, body) => decimal(number) + ". "@ + (match layout {
            Layout::Compact => paragraph_html(body),
            Layout::Lines => expr_html(body),
        }),
        _ => Seq::empty(),
    }
}

/// One past the last statement of the block that begins at `from`: a
/// heading or a paragraph is a block of its own; a list is a block with all
/// its items, and with the stray item that follows it where there is one.
pub open spec fn block_end(statements: Seq<SpecStatement>, from: int) -> int {
    match statements[from] {
        SpecStatement::Heading(_, _) => from + 1,
        SpecStatement::Plain(_) => from + 1,
        _ => if has_stray_item(statements, from) {
            list_end(statements, from) + 1
        } else {
            list_end(statements, from)
        },
    }
}

/// The HTML of the block that begins at `from`.
pub open spec fn block_html(statements: Seq<SpecStatement>, from: int, layout: Layout) -> Seq<
    char,
> {
    match statements[from] {
        SpecStatement::Heading(level, body) => heading_html(level, body),
        SpecStatement::Plain(body) => paragraph_html(body),
        _ => {
            let end = list_end(statements, from);
            let list = list_html(statements, from, end, layout);
            if has_stray_item(statements, from) {
                list + separator(layout) + stray_item_html(statements[end], layout)
            } else {
                list
            }
        },
    }
}

/// The HTML of the blocks from the one that begins at `from` on.
pub open spec fn document_html(statements: Seq<SpecStatement>, from: int, layout: Layout) -> Seq<
    char,
>
    decreases statements.len() - from,
{
    let next = block_end(statements, from);
    if from < 0 || from >= statements.len() {
        Seq::empty()
    } else if from < next < statements.len() {
        block_html(statements, from, layout) + separator(layout) + document_html(
            statements,
            next,
            layout,
        )
    } else {
        block_html(statements, from, layout)
    }
}

/// The compact HTML of a document given as text.
pub open spec fn rendered(text: Seq<char>) -> Seq<char> {
    document_html(parsed(tokenized(text)), 0, Layout::Compact)
}

/// A list is a run of neighbours that each go on with the one before, and
/// it is the longest such run: the statement after it, where there is one,
/// does not go on with its last item.
pub proof fn lemma_list_is_longest_run(statements: Seq<SpecStatement>, from: int)
    requires
        0 <= from < statements.len(),
    ensures
        from < list_end(statements, from) <= statements.len(),
        forall|k: int|
            from < k < list_end(statements, from) ==> continues_list(
                statements[k - 1],
                #[trigger] statements[k],
            ),
        list_end(statements, from) < statements.len() ==> !continues_list(
            statements[list_end(statements, from) - 1],
            statements[list_end(statements, from)],
        ),
    decreases statements.len() - from,
{
    if from + 1 < statements.len() && continues_list(statements[from], statements[from + 1]) {
        lemma_list_is_longest_run(statements, from + 1);
    }
}

/// The items of a numbered list count up by one from its first number, and
/// a numbered item that follows the list has another number than the next
/// one: it is set apart from the list, and it is not left out.
pub proof fn lemma_numbered_list_counts_up(statements: Seq<SpecStatement>, from: int)
    requires
        0 <= from < statements.len(),
        statements[from] is OrderedListItem,
    ensures
        forall|k: int|
            from <= k < list_end(statements, from) ==> (#[trigger] statements[k])
                == SpecStatement::OrderedListItem(
                statements[from]->OrderedListItem_0 + (k - from) as nat,
                statements[k]->OrderedListItem_1,
            ),
        has_stray_item(statements, from) ==> statements[list_end(
            statements,
            from,
        )]->OrderedListItem_0 != statements[from]->OrderedListItem_0 + (list_end(statements, from)
            - from),
        has_stray_item(statements, from) ==> block_end(statements, from) == list_end(
            statements,
            from,
        ) + 1,
        !has_stray_item(statements, from) ==> block_end(statements, from) == list_end(
            statements,
            from,
        ),
    decreases statements.len() - from,
{
    if from + 1 < statements.len() && continues_list(statements[from], statements[from + 1]) {
        lemma_numbered_list_counts_up(statements, from + 1);
    }
}

/// The nodes of a sequence that ends with `last` render as those before it
/// and then `last`.
pub proof fn lemma_exprs_html_push(nodes: Seq<SpecExpr>, last: SpecExpr)
    ensures
        exprs_html(nodes.push(last)) == exprs_html(nodes) + expr_html(last),
{
    assert(nodes.push(last).drop_last() =~= nodes);
}

/// The renderer. It holds the statements of a document.
pub struct Evaluator {
    statements: Vec<Statement>,
}

impl View for Evaluator {
    type V = Seq<SpecStatement>;

    closed spec fn view(&self) -> Seq<SpecStatement> {
        self.statements.deep_view()
    }
}

impl Evaluator {
    /// A renderer for the document `input`.
    pub fn new(input: String) -> (evaluator: Evaluator)
        ensures
            evaluator@ == parsed(tokenized(input@)),
    {
        let parser = Parser::new(input);
        let statements = parser.parse();
        Evaluator { statements }
    }

    /// The document as compact HTML.
    pub fn evaluate(self) -> (html: String)
        ensures
            html@ == document_html(self@, 0, Layout::Compact),
    {
        Self::write_document(&self.statements, Layout::Compact)
    }

    /// The document as HTML with every block on a line of its own.
    pub fn eval(self) -> (html: String)
        ensures
            html@ == document_html(self@, 0, Layout::Lines),
    {
        Self::write_document(&self.statements, Layout::Lines)
    }

    /// The compact HTML of the block that begins at `index`, and the index
    /// of the statement after that block.
    pub fn evaluate_statement(statements: &Vec<Statement>, index: usize) -> (result: (String, usize))
        requires
            index < statements.len(),
        ensures
            result.0@ == block_html(statements.deep_view(), index as int, Layout::Compact),
            result.1 == block_end(statements.deep_view(), index as int),
            index < result.1 <= statements.len(),
    {
        let mut html = String::new();
        let next = Self::write_block(statements, index, Layout::Compact, &mut html);
        (html, next)
    }

    /// The HTML of an inline expression.
    pub fn evaluate_expression(expression: Expression) -> (html: String)
        ensures
            html@ == expr_html(expression@),
    {
        let mut html = String::new();
        Self::write_expression(&expression, &mut html);
        html
    }

    fn write_document(statements: &Vec<Statement>, layout: Layout) -> (html: String)
        ensures
            html@ == document_html(statements.deep_view(), 0, layout),
    {
        let ghost all = statements.deep_view();
        let mut html = String::new();
        let mut at: usize = 0;
        while at < statements.len()
            invariant
                at <= statements.len(),
                all == statements.deep_view(),
                html@ + document_html(all, at as int, layout) =~= document_html(all, 0, layout),
            decreases statements.len() - at,
        {
            let next = Self::write_block(statements, at, layout, &mut html);
            if next < statements.len() {
                Self::write_separator(layout, &mut html);
            }
            at = next;
        }
        html
    }

    fn write_separator(layout: Layout, out: &mut String)
        ensures
            final(out)@ == old(out)@ + separator(layout),
    {
        match layout {
            Layout::Compact => {
            },
            Layout::Lines => {
                push_char(out, '\n');
            },
        }
    }

    fn write_paragraph(body: &Expression, out: &mut String)
        ensures
            final(out)@ == old(out)@ + paragraph_html(body@),
    {
        out.append("<p>");
        Self::write_expression(body, out);
        out.append("</p>");
    }

    fn write_item(statement: &Statement, out: &mut String)
        ensures
            final(out)@ == old(out)@ + item_html(statement@),
    {
        match statement {
            Statement::OrderedListItem(_, body) => {
                out.append("<li>");
                Self::write_expression(body, out);
                out.append("</li>");
            },
            Statement::UnorderedListItem(body) => {
                out.append("<li>");
                Self::write_expression(body, out);
                out.append("</li>");
            },
            Statement::TaskListItem(checked, body) => {
                out.append("<li>");
                if *checked {
                    out.append("[x] ");
                } else {
                    out.append("[ ] ");
                }
                Self::write_expression(body, out);
                out.append("</li>");
            },
            _ => {},
        }
    }

    fn goes_on(last: &Statement, next: &Statement) -> (goes_on: bool)
        ensures
            goes_on == continues_list(last@, next@),
    {
        match (last, next) {
            (Statement::UnorderedListItem(_), Statement::UnorderedListItem(_)) => true,
            (Statement::TaskListItem(_, _), Statement::TaskListItem(_, _)) => true,
            (Statement::OrderedListItem(a, _), Statement::OrderedListItem(b, _)) => *a < *b && *b
                - *a == 1,
            _ => false,
        }
    }

    fn write_heading(level: usize, body: &Expression, out: &mut String)
        ensures
            final(out)@ == old(out)@ + heading_html(level as nat, body@),
    {
        out.append("<h");
        push_decimal(out, level);
        out.append(">");
        Self::write_expression(body, out);
        out.append("</h");
        push_decimal(out, level);
        out.append(">");
    }

    fn write_stray_item(statement: &Statement, layout: Layout, out: &mut String)
        ensures
            final(out)@ == old(out)@ + stray_item_html(statement@, layout),
    {
        match statement {
            Statement::OrderedListItem(number, body) => {
                push_decimal(out, *number);
                out.append(". ");
                match layout {
                    Layout::Compact => Self::write_paragraph(body, out),
                    Layout::Lines => Self::write_expression(body, out),
                }
            },
            _ => {},
        }
    }

    /// Appends the items of the list that begins at `from` to `out`, and
    /// gives the index of the statement after the list.
    fn write_items(statements: &Vec<Statement>, from: usize, layout: Layout, out: &mut String) -> (end:
        usize)
        requires
            from < statements.len(),
        ensures
            final(out)@ == old(out)@ + items_html(
                statements.deep_view(),
                from as int,
                end as int,
                layout,
            ),
            end == list_end(statements.deep_view(), from as int),
            from < end <= statements.len(),
    {
        let ghost all = statements.deep_view();
        Self::write_item(&statements[from], out);
        let mut end: usize = from + 1;
        while end < statements.len() && Self::goes_on(&statements[end - 1], &statements[end])
            invariant
                from < end <= statements.len(),
                all == statements.deep_view(),
                list_end(all, end - 1) == list_end(all, from as int),
                out@ == old(out)@ + items_html(all, from as int, end as int, layout),
            decreases statements.len() - end,
        {
            Self::write_separator(layout, out);
            Self::write_item(&statements[end], out);
            end += 1;
        }
        end
    }

    /// Appends the list that begins at `from` to `out`, and gives the index
    /// of the statement after the list.
    fn write_list(statements: &Vec<Statement>, from: usize, layout: Layout, out: &mut String) -> (end:
        usize)
        requires
            from < statements.len(),
        ensures
            final(out)@ == old(out)@ + list_html(
                statements.deep_view(),
                from as int,
                end as int,
                layout,
            ),
            end == list_end(statements.deep_view(), from as int),
            from < end <= statements.len(),
    {
        let numbered = match &statements[from] {
            Statement::OrderedListItem(_, _) => true,
            _ => false,
        };
        if numbered {
            out.append("<ol>");
        } else {
            out.append("<ul>");
        }
        Self::write_separator(layout, out);
        let end = Self::write_items(statements, from, layout, out);
        Self::write_separator(layout, out);
        if numbered {
            out.append("</ol>");
        } else {
            out.append("</ul>");
        }
        end
    }

    /// Appends the HTML of the block that begins at `from` to `out`, and
    /// gives the index of the statement after that block.
    fn write_block(statements: &Vec<Statement>, from: usize, layout: Layout, out: &mut String) -> (next:
        usize)
        requires
            from < statements.len(),
        ensures
            final(out)@ == old(out)@ + block_html(statements.deep_view(), from as int, layout),
            next == block_end(statements.deep_view(), from as int),
            from < next <= statements.len(),
    {
        let first = &statements[from];
        match first {
            Statement::Heading(level, body) => {
                Self::write_heading(*level, body, out);
                from + 1
            },
            Statement::Plain(body) => {
                Self::write_paragraph(body, out);
                from + 1
            },
            _ => {
                let end = Self::write_list(statements, from, layout, out);
                let stray = end < statements.len() && Self::is_numbered(first) && Self::is_numbered(
                    &statements[end],
                );
                if stray {
                    Self::write_separator(layout, out);
                    Self::write_stray_item(&statements[end], layout, out);
                    end + 1
                } else {
                    end
                }
            },
        }
    }

    fn is_numbered(statement: &Statement) -> (numbered: bool)
        ensures
            numbered == (statement@ is OrderedListItem),
    {
        match statement {
            Statement::OrderedListItem(_, _) => true,
            _ => false,
        }
    }

    /// Appends the HTML of an inline expression to `out`.
    fn write_expression(expression: &Expression, out: &mut String)
        ensures
            final(out)@ == old(out)@ + expr_html(expression@),
        decreases expression,
    {
        match expression {
            Expression::Text(text) => {
                out.append(text.as_str());
            },
            Expression::Bold(body) => {
                out.append("<strong>");
                Self::write_expression(body, out);
                out.append("</strong>");
            },
            Expression::Italic(body) => {
                out.append("<i>");
                Self::write_expression(body, out);
                out.append("</i>");
            },
            Expression::BoldItalic(body) => {
                out.append("<strong><i>");
                Self::write_expression(body, out);
                out.append("</i></strong>");
            },
            Expression::Link(title, address) => {
                out.append("<a href=\"");
                Self::write_expression(address, out);
                out.append("\">");
                Self::write_expression(title, out);
                out.append("</a>");
            },
            Expression::Vec(nodes) => {
                proof {
                    lemma_view_of_sequence(*nodes);
                }
                let ghost views = nodes.deep_view();
                let mut at: usize = 0;
                while at < nodes.len()
                    invariant
                        at <= nodes.len(),
                        *expression == Expression::Vec(*nodes),
                        views == nodes.deep_view(),
                        out@ =~= old(out)@ + exprs_html(views.take(at as int)),
                    decreases nodes.len() - at,
                {
                    proof {
                        lemma_exprs_html_push(views.take(at as int), views[at as int]);
                        assert(views.take(at + 1) =~= views.take(at as int).push(views[at as int]));
                        assert(decreases_to!(*expression => expression->Vec_0));
                    }
                    Self::write_expression(&nodes[at], out);
                    at += 1;
                }
                assert(views.take(nodes.len() as int) =~= views);
            },
        }
    }
}

/// Renders a document: from its text to compact HTML.
///
/// The result is a function of the text and of nothing else: the same text
/// gives the same HTML, character by character, whenever it is rendered.
pub fn render_document(markdown_text: &str) -> (html_text: String)
    ensures
        html_text@ == rendered(markdown_text@),
{
    let evaluator = Evaluator::new(markdown_text.to_owned());
    evaluator.evaluate()
}

} // verus!
