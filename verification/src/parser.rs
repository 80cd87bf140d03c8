//! The syntax tree of a document, and the block parser that builds it from
//! a token stream: one statement for each line.

use crate::conservation::{
    block_marker_len, expr_text, keeps, lemma_line_keeps_text, range_text,
};
use crate::inline::{line_end, scan, tidy};
use crate::lexer::{count_of, tokenized, Lexer, SpecToken, Token};
use crate::structure::{
    lemma_line_well_formed, lemma_parsed_shape, line_count, statement_body, well_formed,
};
use vstd::prelude::*;

verus! {

/// An inline node as a mathematical value: the view of an [`Expression`].
pub enum SpecExpr {
    Text(Seq<char>),
    Bold(Box<SpecExpr>),
    Italic(Box<SpecExpr>),
    BoldItalic(Box<SpecExpr>),
    Link(Box<SpecExpr>, Box<SpecExpr>),
    Sequence(Seq<SpecExpr>),
}

/// A block node as a mathematical value: the view of a [`Statement`].
pub enum SpecStatement {
    Heading(nat, SpecExpr),
    OrderedListItem(nat, SpecExpr),
    UnorderedListItem(SpecExpr),
    TaskListItem(bool, SpecExpr),
    Plain(SpecExpr),
}

/// The formatted text inside a block. `Vec` holds a sequence of nodes in
/// document order; `Link` holds the title and then the address.
#[derive(Debug, PartialEq)]
pub enum Expression {
    Vec(Vec<Expression>),
    Bold(Box<Expression>),
    Italic(Box<Expression>),
    BoldItalic(Box<Expression>),
    Link(Box<Expression>, Box<Expression>),
    Text(String),
}

/// A block: what one line of the document stands for.
#[derive(Debug, PartialEq)]
pub enum Statement {
    Heading(usize, Expression),
    OrderedListItem(usize, Expression),
    UnorderedListItem(Expression),
    TaskListItem(bool, Expression),
    Plain(Expression),
}

/// The mathematical value of an inline node.
pub open spec fn expr_view(expression: Expression) -> SpecExpr
    decreases expression,
{
    match expression {
        Expression::Text(text) => SpecExpr::Text(text@),
        Expression::Bold(body) => SpecExpr::Bold(Box::new(expr_view(*body))),
        Expression::Italic(body) => SpecExpr::Italic(Box::new(expr_view(*body))),
        Expression::BoldItalic(body) => SpecExpr::BoldItalic(Box::new(expr_view(*body))),
        Expression::Link(title, url) => SpecExpr::Link(
            Box::new(expr_view(*title)),
            Box::new(expr_view(*url)),
        ),
        Expression::Vec(nodes) => SpecExpr::Sequence(
            Seq::new(
                nodes@.len(),
                |i: int|
                    if 0 <= i < nodes@.len() {
                        expr_view(nodes@[i])
                    } else {
                        SpecExpr::Text(Seq::empty())
                    },
            ),
        ),
    }
}

impl View for Expression {
    type V = SpecExpr;

    open spec fn view(&self) -> SpecExpr {
        expr_view(*self)
    }
}

impl DeepView for Expression {
    type V = SpecExpr;

    open spec fn deep_view(&self) -> SpecExpr {
        expr_view(*self)
    }
}

impl View for Statement {
    type V = SpecStatement;

    open spec fn view(&self) -> SpecStatement {
        match self {
            Statement::Heading(level, body) => SpecStatement::Heading(*level as nat, body@),
            Statement::OrderedListItem(number, body) => SpecStatement::OrderedListItem(
                *number as nat,
                body@,
            ),
            Statement::UnorderedListItem(body) => SpecStatement::UnorderedListItem(body@),
            Statement::TaskListItem(checked, body) => SpecStatement::TaskListItem(*checked, body@),
            Statement::Plain(body) => SpecStatement::Plain(body@),
        }
    }
}

impl DeepView for Statement {
    type V = SpecStatement;

    open spec fn deep_view(&self) -> SpecStatement {
        self@
    }
}

/// The view of a sequence node is the sequence of its children's views.
pub proof fn lemma_view_of_sequence(nodes: Vec<Expression>)
    ensures
        Expression::Vec(nodes)@ == SpecExpr::Sequence(nodes.deep_view()),
{
    let view = expr_view(Expression::Vec(nodes));
    assert(view->Sequence_0 =~= nodes.deep_view());
}

/// Whether `tokens[at]` lies before `end` and is a run of at least one
/// blank.
pub open spec fn is_blank(tokens: Seq<SpecToken>, at: int, end: int) -> bool {
    at < end && tokens[at] is WhiteSpace && count_of(tokens[at]) >= 1
}

/// Whether the line `tokens[from..end)` opens as a heading: a run of at
/// least one `#` and then a blank.
pub open spec fn is_heading_line(tokens: Seq<SpecToken>, from: int, end: int) -> bool {
    from < end && tokens[from] is Heading && count_of(tokens[from]) >= 1 && is_blank(
        tokens,
        from + 1,
        end,
    )
}

/// Whether the line `tokens[from..end)` opens as an item of an ordered
/// list: a number, a dot and then a blank.
pub open spec fn is_ordered_line(tokens: Seq<SpecToken>, from: int, end: int) -> bool {
    from + 1 < end && tokens[from] is Number && tokens[from + 1] is Dot && is_blank(
        tokens,
        from + 2,
        end,
    )
}

/// Whether the line `tokens[from..end)` opens as an item of a bullet list:
/// a hyphen and then a blank.
pub open spec fn is_bullet_line(tokens: Seq<SpecToken>, from: int, end: int) -> bool {
    from < end && tokens[from] is Hyphen && is_blank(tokens, from + 1, end)
}

/// Whether `token` is what stands in a check box: one blank, or the word
/// `x`.
pub open spec fn is_check_mark(token: SpecToken) -> bool {
    token == SpecToken::WhiteSpace(1) || token == SpecToken::Word(seq!['x'])
}

/// Whether the line `tokens[from..end)` opens as an item of a task list: a
/// bullet, then `[`, a check mark, `]` and a blank.
pub open spec fn is_task_line(tokens: Seq<SpecToken>, from: int, end: int) -> bool {
    is_bullet_line(tokens, from, end) && from + 4 < end && tokens[from + 2] is LBracket
        && is_check_mark(tokens[from + 3]) && tokens[from + 4] is RBracket && is_blank(
        tokens,
        from + 5,
        end,
    )
}

/// The inline expression of `tokens[from..end)`.
pub open spec fn body_of(tokens: Seq<SpecToken>, from: int, end: int) -> SpecExpr {
    tidy(scan(tokens, from, end, Seq::empty()))
}

/// The statement of the line `tokens[from..end)`. A line that opens as no
/// heading and no list item is a paragraph of all its tokens.
pub open spec fn parsed_line(tokens: Seq<SpecToken>, from: int, end: int) -> SpecStatement {
    if is_heading_line(tokens, from, end) {
        SpecStatement::Heading(count_of(tokens[from]), body_of(tokens, from + 2, end))
    } else if is_ordered_line(tokens, from, end) {
        SpecStatement::OrderedListItem(tokens[from]->Number_0, body_of(tokens, from + 3, end))
    } else if is_task_line(tokens, from, end) {
        SpecStatement::TaskListItem(tokens[from + 3] is Word, body_of(tokens, from + 6, end))
    } else if is_bullet_line(tokens, from, end) {
        SpecStatement::UnorderedListItem(body_of(tokens, from + 2, end))
    } else {
        SpecStatement::Plain(body_of(tokens, from, end))
    }
}

/// The statements of the lines of `tokens` from the line that begins at
/// `from` on.
pub open spec fn parsed_from(tokens: Seq<SpecToken>, from: int) -> Seq<SpecStatement>
    decreases tokens.len() - from,
{
    let end = line_end(tokens, from);
    let first = seq![parsed_line(tokens, from, end)];
    if from <= end < tokens.len() {
        first + parsed_from(tokens, end + 1)
    } else {
        first
    }
}

/// The statements of a token stream: one for each line, in order.
pub open spec fn parsed(tokens: Seq<SpecToken>) -> Seq<SpecStatement> {
    parsed_from(tokens, 0)
}

/// The block parser. It holds the token stream of a document.
pub struct Parser {
    tokens: Vec<Token>,
}

impl View for Parser {
    type V = Seq<SpecToken>;

    closed spec fn view(&self) -> Seq<SpecToken> {
        self.tokens.deep_view()
    }
}

impl Parser {
    /// A parser for the tokens of `input`.
    pub fn new(input: String) -> (parser: Parser)
        ensures
            parser@ == tokenized(input@),
    {
        let lexer = Lexer::new();
        let tokens = lexer.tokenize(input);
        Parser { tokens }
    }

    /// The statements of the token stream: one for each line, in order,
    /// none with a sequence of fewer than two nodes.
    pub fn parse(self) -> (statements: Vec<Statement>)
        ensures
            statements.deep_view() == parsed(self@),
            statements.len() == line_count(self@, 0),
            forall|k: int|
                0 <= k < statements.len() ==> well_formed(
                    statement_body(#[trigger] statements.deep_view()[k]),
                ),
    {
        let tokens = self.tokens;
        let ghost ts = tokens.deep_view();
        proof {
            lemma_parsed_shape(ts);
        }
        let mut statements: Vec<Statement> = Vec::new();
        let mut from: usize = 0;
        loop
            invariant_except_break
                statements.deep_view() + parsed_from(ts, from as int) =~= parsed(ts),
            invariant
                from <= tokens.len(),
                ts == tokens.deep_view(),
            ensures
                statements.deep_view() == parsed(ts),
            decreases tokens.len() - from,
        {
            let end = Self::find(&tokens, &Token::NewLine, from, tokens.len());
            let statement = Self::parse_line_in(&tokens, from, end);
            statements.push(statement);
            if end >= tokens.len() {
                break ;
            }
            from = end + 1;
        }
        statements
    }

    /// The statement of the first line of `tokens`. Its body holds no
    /// sequence of fewer than two nodes, and the text of its body is what
    /// the tokens after the block marker stand for, with some delimiters
    /// left out.
    pub fn parse_line(tokens: Vec<Token>) -> (statement: Statement)
        ensures
            statement@ == parsed_line(
                tokens.deep_view(),
                0,
                line_end(tokens.deep_view(), 0),
            ),
            well_formed(statement_body(statement@)),
            keeps(
                range_text(
                    tokens.deep_view(),
                    block_marker_len(tokens.deep_view(), 0, line_end(tokens.deep_view(), 0)),
                    line_end(tokens.deep_view(), 0),
                ),
                expr_text(statement_body(statement@)),
            ),
    {
        let end = Self::find(&tokens, &Token::NewLine, 0, tokens.len());
        proof {
            lemma_line_well_formed(tokens.deep_view(), 0, end as int);
            lemma_line_keeps_text(tokens.deep_view(), 0, end as int);
        }
        Self::parse_line_in(&tokens, 0, end)
    }

    fn blank_at(tokens: &Vec<Token>, at: usize, end: usize) -> (blank: bool)
        requires
            end <= tokens.len(),
        ensures
            blank == is_blank(tokens.deep_view(), at as int, end as int),
    {
        if at < end {
            match &tokens[at] {
                Token::WhiteSpace(count) => *count >= 1,
                _ => false,
            }
        } else {
            false
        }
    }

    fn check_mark(token: &Token) -> (mark: Option<bool>)
        ensures
            mark is Some == is_check_mark(token@),
            mark is Some ==> mark->Some_0 == (token@ is Word),
    {
        match token {
            Token::WhiteSpace(count) => if *count == 1 {
                Some(false)
            } else {
                None
            },
            Token::Word(word) => {
                if word.as_str().unicode_len() == 1 && word.as_str().get_char(0) == 'x' {
                    assert(word@ =~= seq!['x']);
                    Some(true)
                } else {
                    None
                }
            },
            _ => None,
        }
    }

    /// The statement of the line `tokens[from..end)`.
    pub(crate) fn parse_line_in(tokens: &Vec<Token>, from: usize, end: usize) -> (statement:
        Statement)
        requires
            from <= end <= tokens.len(),
        ensures
            statement@ == parsed_line(tokens.deep_view(), from as int, end as int),
    {
        if from < end {
            match &tokens[from] {
                Token::Heading(level) => {
                    if *level >= 1 && Self::blank_at(tokens, from + 1, end) {
                        return Statement::Heading(*level, Self::parse_span(tokens, from + 2, end));
                    }
                },
                Token::Number(number) => {
                    if end - from > 1 && tokens[from + 1].expect(&Token::Dot) && Self::blank_at(
                        tokens,
                        from + 2,
                        end,
                    ) {
                        return Statement::OrderedListItem(
                            *number,
                            Self::parse_span(tokens, from + 3, end),
                        );
                    }
                },
                Token::Hyphen => {
                    if Self::blank_at(tokens, from + 1, end) {
                        if end - from > 4 && tokens[from + 2].expect(&Token::LBracket) && tokens[from
                            + 4].expect(&Token::RBracket) && Self::blank_at(tokens, from + 5, end) {
                            match Self::check_mark(&tokens[from + 3]) {
                                Some(checked) => {
                                    return Statement::TaskListItem(
                                        checked,
                                        Self::parse_span(tokens, from + 6, end),
                                    );
                                },
                                None => {},
                            }
                        }
                        return Statement::UnorderedListItem(
                            Self::parse_span(tokens, from + 2, end),
                        );
                    }
                },
                _ => {},
            }
        }
        Statement::Plain(Self::parse_span(tokens, from, end))
    }
}

} // verus!
