//! The inline parser: emphasis runs, links and plain text within one line.
//!
//! A line is scanned from left to right. Plain tokens gather into text. An
//! emphasis run looks ahead for the next run of its own marker and wraps
//! what lies between; a bracket looks ahead for `](` and `)` and becomes a
//! link. A construct that cannot be closed stays in the output as the
//! characters it was written with.

use crate::conservation::{expr_text, keeps, lemma_inline_keeps_text, range_text};
use crate::lexer::{count_of, SpecToken, Token};
use crate::parser::{lemma_view_of_sequence, Expression, Parser, SpecExpr};
use crate::structure::{lemma_inline_well_formed, well_formed};
use crate::text::{push_char, push_repeated, repeated};
use vstd::prelude::*;

verus! {

/// The index of the first token of the kind of `probe` in
/// `tokens[from..end)`, or `end` where there is none.
pub open spec fn first_of_kind(tokens: Seq<SpecToken>, probe: SpecToken, from: int, end: int) -> int
    decreases end - from,
{
    if from >= end {
        end
    } else if tokens[from].same_kind(probe) {
        from
    } else {
        first_of_kind(tokens, probe, from + 1, end)
    }
}

/// Where a run of the searched kind can be: between `from` and `end`.
pub proof fn lemma_first_of_kind(tokens: Seq<SpecToken>, probe: SpecToken, from: int, end: int)
    requires
        from <= end,
    ensures
        from <= first_of_kind(tokens, probe, from, end) <= end,
        first_of_kind(tokens, probe, from, end) < end ==> tokens[first_of_kind(
            tokens,
            probe,
            from,
            end,
        )].same_kind(probe),
        forall|k: int|
            from <= k < first_of_kind(tokens, probe, from, end) ==> !(#[trigger] tokens[k]).same_kind(
                probe,
            ),
    decreases end - from,
{
    if from < end && !tokens[from].same_kind(probe) {
        lemma_first_of_kind(tokens, probe, from + 1, end);
    }
}

/// Where the line that begins at `from` ends: the index of the next
/// `NewLine`, or the length of `tokens`.
pub open spec fn line_end(tokens: Seq<SpecToken>, from: int) -> int {
    first_of_kind(tokens, SpecToken::NewLine, from, tokens.len() as int)
}

/// `nodes` with `text` added at its end: joined to the last node where that
/// one is text, as a new text node otherwise.
pub open spec fn append_text(nodes: Seq<SpecExpr>, text: Seq<char>) -> Seq<SpecExpr> {
    if nodes.len() > 0 && nodes.last() is Text {
        nodes.drop_last().push(SpecExpr::Text(nodes.last()->Text_0 + text))
    } else {
        nodes.push(SpecExpr::Text(text))
    }
}

/// The single expression that a list of nodes stands for: empty text for no
/// node, the node itself for one, their sequence for more.
pub open spec fn tidy(nodes: Seq<SpecExpr>) -> SpecExpr {
    if nodes.len() == 0 {
        SpecExpr::Text(Seq::empty())
    } else if nodes.len() == 1 {
        nodes[0]
    } else {
        SpecExpr::Sequence(nodes)
    }
}

/// The emphasis that a matched pair of runs gives, by the length of the
/// shorter run: italic for one marker, bold for two, both for three or more.
pub open spec fn emphasis(strength: nat, body: SpecExpr) -> SpecExpr {
    if strength >= 3 {
        SpecExpr::BoldItalic(Box::new(body))
    } else if strength == 2 {
        SpecExpr::Bold(Box::new(body))
    } else {
        SpecExpr::Italic(Box::new(body))
    }
}

/// The character that an emphasis run is written with.
pub open spec fn marker_char(token: SpecToken) -> char {
    if token is Underscore {
        '_'
    } else {
        '*'
    }
}

/// The index of the run that closes the emphasis run at `from`: the next
/// token of the same marker before `end`, or `end`.
pub open spec fn closing_run(tokens: Seq<SpecToken>, from: int, end: int) -> int {
    first_of_kind(tokens, tokens[from], from + 1, end)
}

/// The length of the shorter of the run at `from` and the run that closes
/// it; zero where nothing closes it.
pub open spec fn emphasis_strength(tokens: Seq<SpecToken>, from: int, end: int) -> nat {
    let close = closing_run(tokens, from, end);
    if from < close < end {
        let left = count_of(tokens[from]);
        let right = count_of(tokens[close]);
        if left <= right {
            left
        } else {
            right
        }
    } else {
        0
    }
}

/// `nodes` followed by the emphasis that the runs at `from` and `close`
/// give to `body`. The markers that the longer run has in excess stay as
/// text on its side of the emphasis.
pub open spec fn push_emphasis(
    nodes: Seq<SpecExpr>,
    open: SpecToken,
    close: SpecToken,
    body: SpecExpr,
) -> Seq<SpecExpr> {
    let left = count_of(open);
    let right = count_of(close);
    let mark = marker_char(open);
    if left > right {
        nodes.push(SpecExpr::Text(repeated(mark, (left - right) as nat))).push(
            emphasis(right, body),
        )
    } else if right > left {
        nodes.push(emphasis(left, body)).push(
            SpecExpr::Text(repeated(mark, (right - left) as nat)),
        )
    } else {
        nodes.push(emphasis(left, body))
    }
}

/// The index of the `]` that ends the title of the bracket at `from`, or
/// `end`.
pub open spec fn title_end(tokens: Seq<SpecToken>, from: int, end: int) -> int {
    first_of_kind(tokens, SpecToken::RBracket, from + 1, end)
}

/// Whether the title of the bracket at `from` is closed and a `(` follows
/// the `]` at once.
pub open spec fn has_address(tokens: Seq<SpecToken>, from: int, end: int) -> bool {
    let close = title_end(tokens, from, end);
    from < close && close + 1 < end && tokens[close + 1] is LParen
}

/// The index of the `)` that ends the address of the bracket at `from`, or
/// `end` where the link is not complete.
pub open spec fn address_end(tokens: Seq<SpecToken>, from: int, end: int) -> int {
    if has_address(tokens, from, end) {
        first_of_kind(tokens, SpecToken::RParen, title_end(tokens, from, end) + 2, end)
    } else {
        end
    }
}

/// Whether the bracket at `from` begins a complete link `[title](address)`.
pub open spec fn is_link(tokens: Seq<SpecToken>, from: int, end: int) -> bool {
    has_address(tokens, from, end) && address_end(tokens, from, end) < end
}

/// One past the last token that the incomplete link at `from` takes with
/// it: the token after `]` where the title is closed and no `(` follows,
/// the end of the line otherwise.
pub open spec fn broken_link_end(tokens: Seq<SpecToken>, from: int, end: int) -> int {
    let close = title_end(tokens, from, end);
    if from < close < end && !has_address(tokens, from, end) {
        if close + 1 < end {
            close + 2
        } else {
            close + 1
        }
    } else {
        end
    }
}

/// The tokens `tokens[from..span_end)` of an incomplete link, with the
/// bracket at `from` and the `]` at `close` turned into words.
pub open spec fn literal_span(
    tokens: Seq<SpecToken>,
    from: int,
    close: int,
    span_end: int,
) -> Seq<SpecToken> {
    Seq::new(
        (span_end - from) as nat,
        |k: int|
            if k == 0 {
                SpecToken::Word(seq!['['])
            } else if from + k == close {
                SpecToken::Word(seq![']'])
            } else {
                tokens[from + k]
            },
    )
}

/// Whether the token at `from` is an emphasis run that a later run of the
/// same marker closes.
pub open spec fn is_emphasis(tokens: Seq<SpecToken>, from: int, end: int) -> bool {
    (tokens[from] is Asterisk || tokens[from] is Underscore) && emphasis_strength(
        tokens,
        from,
        end,
    ) > 0
}

/// One past the last token of the construct that begins at `from`: the
/// closing run of an emphasis, the `)` of a link, what an incomplete link
/// takes with it, and for everything else the token itself.
pub open spec fn step_end(tokens: Seq<SpecToken>, from: int, end: int) -> int {
    if is_emphasis(tokens, from, end) {
        closing_run(tokens, from, end) + 1
    } else if tokens[from] is LBracket && is_link(tokens, from, end) {
        address_end(tokens, from, end) + 1
    } else if tokens[from] is LBracket {
        broken_link_end(tokens, from, end)
    } else {
        from + 1
    }
}

/// The construct that begins at `from` ends after `from` and before `end`.
pub proof fn lemma_step_end(tokens: Seq<SpecToken>, from: int, end: int)
    requires
        from < end,
    ensures
        from < step_end(tokens, from, end) <= end,
{
    lemma_first_of_kind(tokens, tokens[from], from + 1, end);
    lemma_first_of_kind(tokens, SpecToken::RBracket, from + 1, end);
    if has_address(tokens, from, end) {
        lemma_first_of_kind(tokens, SpecToken::RParen, title_end(tokens, from, end) + 2, end);
    }
}

/// `nodes` with what the construct that begins at `from` adds to it.
///
/// An emphasis run that a later run closes wraps what lies between the two.
/// A complete link holds its title and its address. An incomplete link adds
/// one node: what its tokens give when its brackets are read as words. Any
/// other token, a run that nothing closes among them, adds its characters
/// as text.
pub open spec fn step(tokens: Seq<SpecToken>, from: int, end: int, nodes: Seq<SpecExpr>) -> Seq<
    SpecExpr,
>
    decreases end - from, 0int,
{
    let close = closing_run(tokens, from, end);
    let bracket = title_end(tokens, from, end);
    let paren = address_end(tokens, from, end);
    let span_end = broken_link_end(tokens, from, end);
    if from >= end {
        nodes
    } else if is_emphasis(tokens, from, end) {
        let body = tidy(scan(tokens, from + 1, close, Seq::empty()));
        push_emphasis(nodes, tokens[from], tokens[close], body)
    } else if tokens[from] is LBracket && is_link(tokens, from, end) {
        proof {
            lemma_first_of_kind(tokens, SpecToken::RParen, bracket + 2, end);
        }
        let title = tidy(scan(tokens, from + 1, bracket, Seq::empty()));
        let address = tidy(scan(tokens, bracket + 2, paren, Seq::empty()));
        nodes.push(SpecExpr::Link(Box::new(title), Box::new(address)))
    } else if tokens[from] is LBracket {
        let literal = literal_span(tokens, from, bracket, span_end);
        nodes.push(tidy(scan(literal, 1, span_end - from, seq![SpecExpr::Text(seq!['['])])))
    } else {
        append_text(nodes, tokens[from].text())
    }
}

/// The nodes that `tokens[from..end)` add to `nodes`: construct after
/// construct, from left to right.
pub open spec fn scan(tokens: Seq<SpecToken>, from: int, end: int, nodes: Seq<SpecExpr>) -> Seq<
    SpecExpr,
>
    decreases end - from, 1int,
{
    if from >= end {
        nodes
    } else {
        proof {
            lemma_step_end(tokens, from, end);
        }
        scan(tokens, step_end(tokens, from, end), end, step(tokens, from, end, nodes))
    }
}

/// The inline expression of the line that begins at `from`.
pub open spec fn parsed_inline(tokens: Seq<SpecToken>, from: int) -> SpecExpr {
    tidy(scan(tokens, from, line_end(tokens, from), Seq::empty()))
}

impl Token {
    /// The count that a token of a counted kind carries; zero for the
    /// others.
    pub fn count(&self) -> (count: usize)
        ensures
            count == count_of(self@),
    {
        match self {
            Token::Heading(count) => *count,
            Token::WhiteSpace(count) => *count,
            Token::Asterisk(count) => *count,
            Token::Underscore(count) => *count,
            _ => 0,
        }
    }
}

impl Parser {
    /// The inline expression of the first line of `tokens`. It holds no
    /// sequence of fewer than two nodes, and its text is what the tokens of
    /// the line stand for, with some delimiters left out.
    pub fn parse_expression(tokens: Vec<Token>) -> (expression: Expression)
        ensures
            expression@ == parsed_inline(tokens.deep_view(), 0),
            well_formed(expression@),
            keeps(
                range_text(tokens.deep_view(), 0, line_end(tokens.deep_view(), 0)),
                expr_text(expression@),
            ),
    {
        let end = Self::find(&tokens, &Token::NewLine, 0, tokens.len());
        proof {
            lemma_inline_well_formed(tokens.deep_view(), 0);
            lemma_inline_keeps_text(tokens.deep_view(), 0);
        }
        Self::parse_span(&tokens, 0, end)
    }

    /// The inline expression of `tokens[from..end)`.
    pub(crate) fn parse_span(tokens: &Vec<Token>, from: usize, end: usize) -> (expression:
        Expression)
        requires
            from <= end <= tokens.len(),
        ensures
            expression@ == tidy(scan(tokens.deep_view(), from as int, end as int, Seq::empty())),
        decreases end - from, 2int,
    {
        let nodes: Vec<Expression> = Vec::new();
        assert(nodes.deep_view() =~= Seq::<SpecExpr>::empty());
        Self::tidy_expressions(Self::scan_span(tokens, from, end, nodes))
    }

    /// The index of the first token of the kind of `probe` in
    /// `tokens[from..end)`, or `end`.
    pub(crate) fn find(tokens: &Vec<Token>, probe: &Token, from: usize, end: usize) -> (at: usize)
        requires
            from <= end <= tokens.len(),
        ensures
            at == first_of_kind(tokens.deep_view(), probe@, from as int, end as int),
            from <= at <= end,
    {
        let mut at: usize = from;
        while at < end && !tokens[at].expect(probe)
            invariant
                from <= at <= end <= tokens.len(),
                first_of_kind(tokens.deep_view(), probe@, at as int, end as int) == first_of_kind(
                    tokens.deep_view(),
                    probe@,
                    from as int,
                    end as int,
                ),
            decreases end - at,
        {
            at += 1;
        }
        at
    }

    fn push_node(nodes: &mut Vec<Expression>, node: Expression)
        ensures
            final(nodes).deep_view() == old(nodes).deep_view().push(node@),
    {
        nodes.push(node);
    }

    fn append_to_last(expressions: &mut Vec<Expression>, token: &Token)
        ensures
            final(expressions).deep_view() == append_text(
                old(expressions).deep_view(),
                token@.text(),
            ),
    {
        match expressions.pop() {
            Some(Expression::Text(mut text)) => {
                token.write_to(&mut text);
                Self::push_node(expressions, Expression::Text(text));
            },
            Some(last) => {
                Self::push_node(expressions, last);
                Self::push_node(expressions, Expression::Text(token.to_string()));
            },
            None => {
                Self::push_node(expressions, Expression::Text(token.to_string()));
            },
        }
    }

    fn tidy_expressions(expressions: Vec<Expression>) -> (expression: Expression)
        ensures
            expression@ == tidy(expressions.deep_view()),
    {
        let mut expressions = expressions;
        if expressions.len() == 0 {
            Expression::Text(String::new())
        } else if expressions.len() == 1 {
            let only = expressions.pop();
            match only {
                Some(expression) => expression,
                None => Expression::Text(String::new()),
            }
        } else {
            proof {
                lemma_view_of_sequence(expressions);
            }
            Expression::Vec(expressions)
        }
    }

    fn marker_text(mark: char, count: usize) -> (node: Expression)
        ensures
            node@ == SpecExpr::Text(repeated(mark, count as nat)),
    {
        let mut text = String::new();
        push_repeated(&mut text, mark, count);
        Expression::Text(text)
    }

    fn wrap(strength: usize, body: Expression) -> (node: Expression)
        ensures
            node@ == emphasis(strength as nat, body@),
    {
        if strength >= 3 {
            Expression::BoldItalic(Box::new(body))
        } else if strength == 2 {
            Expression::Bold(Box::new(body))
        } else {
            Expression::Italic(Box::new(body))
        }
    }

    fn literal_tokens(tokens: &Vec<Token>, from: usize, close: usize, span_end: usize) -> (literal:
        Vec<Token>)
        requires
            from < span_end <= tokens.len(),
        ensures
            literal.deep_view() == literal_span(
                tokens.deep_view(),
                from as int,
                close as int,
                span_end as int,
            ),
            literal.len() == span_end - from,
    {
        let mut literal: Vec<Token> = Vec::new();
        let mut bracket = String::new();
        push_char(&mut bracket, '[');
        literal.push(Token::Word(bracket));
        let mut at: usize = from + 1;
        while at < span_end
            invariant
                from < at <= span_end <= tokens.len(),
                literal.len() == at - from,
                forall|k: int|
                    0 <= k < at - from ==> (#[trigger] literal@[k])@ == literal_span(
                        tokens.deep_view(),
                        from as int,
                        close as int,
                        span_end as int,
                    )[k],
            decreases span_end - at,
        {
            if at == close {
                let mut bracket = String::new();
                push_char(&mut bracket, ']');
                literal.push(Token::Word(bracket));
            } else {
                literal.push(tokens[at].duplicate());
            }
            at += 1;
        }
        literal
    }

    /// Adds to `nodes` what the emphasis run at `from` gives, and returns
    /// where the scan goes on.
    fn parse_emphasis(tokens: &Vec<Token>, from: usize, end: usize, nodes: &mut Vec<Expression>) -> (next:
        usize)
        requires
            from < end <= tokens.len(),
            tokens[from as int]@ is Asterisk || tokens[from as int]@ is Underscore,
        ensures
            final(nodes).deep_view() == step(
                tokens.deep_view(),
                from as int,
                end as int,
                old(nodes).deep_view(),
            ),
            next == step_end(tokens.deep_view(), from as int, end as int),
        decreases end - from, 0int,
    {
        let open = &tokens[from];
        let close = Self::find(tokens, open, from + 1, end);
        let left = open.count();
        let right: usize = if close < end {
            tokens[close].count()
        } else {
            0
        };
        if left == 0 || right == 0 {
            Self::append_to_last(nodes, open);
            return from + 1;
        }
        let body = Self::parse_span(tokens, from + 1, close);
        let mark: char = match open {
            Token::Underscore(_) => '_',
            _ => '*',
        };
        if left > right {
            Self::push_node(nodes, Self::marker_text(mark, left - right));
            Self::push_node(nodes, Self::wrap(right, body));
        } else if right > left {
            Self::push_node(nodes, Self::wrap(left, body));
            Self::push_node(nodes, Self::marker_text(mark, right - left));
        } else {
            Self::push_node(nodes, Self::wrap(left, body));
        }
        close + 1
    }

    /// Adds to `nodes` what the bracket at `from` gives, and returns where
    /// the scan goes on.
    fn parse_link(tokens: &Vec<Token>, from: usize, end: usize, nodes: &mut Vec<Expression>) -> (next:
        usize)
        requires
            from < end <= tokens.len(),
            tokens[from as int]@ is LBracket,
        ensures
            final(nodes).deep_view() == step(
                tokens.deep_view(),
                from as int,
                end as int,
                old(nodes).deep_view(),
            ),
            next == step_end(tokens.deep_view(), from as int, end as int),
        decreases end - from, 0int,
    {
        let close = Self::find(tokens, &Token::RBracket, from + 1, end);
        let has_address = close < end && end - close > 1 && tokens[close + 1].expect(
            &Token::LParen,
        );
        let paren: usize = if has_address {
            Self::find(tokens, &Token::RParen, close + 2, end)
        } else {
            end
        };
        if has_address && paren < end {
            let title = Self::parse_span(tokens, from + 1, close);
            let address = Self::parse_span(tokens, close + 2, paren);
            Self::push_node(nodes, Expression::Link(Box::new(title), Box::new(address)));
            return paren + 1;
        }
        let span_end: usize = if close < end && !has_address {
            if end - close > 1 {
                close + 2
            } else {
                close + 1
            }
        } else {
            end
        };
        let literal = Self::literal_tokens(tokens, from, close, span_end);
        let mut inner: Vec<Expression> = Vec::new();
        let mut bracket = String::new();
        push_char(&mut bracket, '[');
        inner.push(Expression::Text(bracket));
        assert(inner.deep_view() =~= seq![SpecExpr::Text(seq!['['])]);
        let inner = Self::scan_span(&literal, 1, span_end - from, inner);
        Self::push_node(nodes, Self::tidy_expressions(inner));
        span_end
    }

    /// The nodes that `tokens[from..end)` add to `nodes`.
    pub(crate) fn scan_span(
        tokens: &Vec<Token>,
        from: usize,
        end: usize,
        nodes: Vec<Expression>,
    ) -> (out: Vec<Expression>)
        requires
            from <= end <= tokens.len(),
        ensures
            out.deep_view() == scan(
                tokens.deep_view(),
                from as int,
                end as int,
                nodes.deep_view(),
            ),
        decreases end - from, 1int,
    {
        let ghost goal = scan(tokens.deep_view(), from as int, end as int, nodes.deep_view());
        let mut nodes = nodes;
        let mut at: usize = from;
        while at < end
            invariant
                from <= at <= end <= tokens.len(),
                scan(tokens.deep_view(), at as int, end as int, nodes.deep_view()) == goal,
            decreases end - at,
        {
            proof {
                lemma_step_end(tokens.deep_view(), at as int, end as int);
            }
            let ghost before = nodes.deep_view();
            let ghost here = at as int;
            let token = &tokens[at];
            match token {
                Token::Asterisk(_) | Token::Underscore(_) => {
                    at = Self::parse_emphasis(tokens, at, end, &mut nodes);
                },
                Token::LBracket => {
                    at = Self::parse_link(tokens, at, end, &mut nodes);
                },
                _ => {
                    Self::append_to_last(&mut nodes, token);
                    at += 1;
                },
            }
            assert(nodes.deep_view() == step(tokens.deep_view(), here, end as int, before));
        }
        nodes
    }
}

} // verus!
