//! What the parser keeps of its input.
//!
//! The text of an expression is what is left of it when the markup is taken
//! away. The laws of this module say that the text of a parsed line is the
//! text of its tokens with some delimiters left out, in the same order, and
//! that nothing at all is left out of a line in which no construct can be
//! closed: such a line is rendered as the characters it was written with.

use crate::evaluator::{
    document_html, expr_html, exprs_html, lemma_exprs_html_push, paragraph_html, rendered, Layout,
};
use crate::inline::{
    address_end, append_text, broken_link_end, closing_run, emphasis, is_emphasis, is_link,
    lemma_first_of_kind, lemma_step_end, line_end, literal_span, marker_char, parsed_inline,
    push_emphasis, scan, step, step_end, tidy, title_end,
};
use crate::lexer::{coalesced, count_of, tokenized, tokens_text, unit_tokens, SpecToken};
use crate::lexer_laws::{lemma_tokenized_text, numerals_are_plain};
use crate::parser::{
    body_of, is_bullet_line, is_heading_line, is_ordered_line, is_task_line, parsed, parsed_line,
    SpecExpr,
};
use crate::structure::statement_body;
use crate::text::repeated;
use vstd::prelude::*;

verus! {

/// The text of an expression: its characters in the order in which they
/// were written, without the markup.
pub open spec fn expr_text(expression: SpecExpr) -> Seq<char>
    decreases expression,
{
    match expression {
        SpecExpr::Text(text) => text,
        SpecExpr::Bold(body) => expr_text(*body),
        SpecExpr::Italic(body) => expr_text(*body),
        SpecExpr::BoldItalic(body) => expr_text(*body),
        SpecExpr::Link(title, address) => expr_text(*title) + expr_text(*address),
        SpecExpr::Sequence(nodes) => exprs_text(nodes),
    }
}

/// The text of a list of nodes: one after the other.
pub open spec fn exprs_text(nodes: Seq<SpecExpr>) -> Seq<char>
    decreases nodes,
{
    if nodes.len() == 0 {
        Seq::empty()
    } else {
        exprs_text(nodes.drop_last()) + expr_text(nodes.last())
    }
}

/// The characters that the tokens `tokens[from..end)` stand for.
pub open spec fn range_text(tokens: Seq<SpecToken>, from: int, end: int) -> Seq<char> {
    tokens_text(tokens.subrange(from, end))
}

/// Whether `c` is a character that markup is written with.
pub open spec fn is_delimiter(c: char) -> bool {
    c == '*' || c == '_' || c == '[' || c == ']' || c == '(' || c == ')'
}

/// Whether `kept` is `source` with some delimiters left out: every other
/// character is there, once, and in its place.
pub open spec fn keeps(source: Seq<char>, kept: Seq<char>) -> bool
    decreases source.len(),
{
    if source.len() == 0 {
        kept.len() == 0
    } else {
        ||| kept.len() > 0 && source[0] == kept[0] && keeps(source.drop_first(), kept.drop_first())
        ||| is_delimiter(source[0]) && keeps(source.drop_first(), kept)
    }
}

/// A text keeps itself.
pub proof fn lemma_keeps_all(text: Seq<char>)
    ensures
        keeps(text, text),
    decreases text.len(),
{
    if text.len() > 0 {
        lemma_keeps_all(text.drop_first());
    }
}

/// Delimiters may all be left out.
pub proof fn lemma_keeps_none(delimiters: Seq<char>)
    requires
        forall|i: int| 0 <= i < delimiters.len() ==> is_delimiter(#[trigger] delimiters[i]),
    ensures
        keeps(delimiters, Seq::empty()),
    decreases delimiters.len(),
{
    if delimiters.len() > 0 {
        lemma_keeps_none(delimiters.drop_first());
    }
}

/// What two texts keep, one after the other, their concatenation keeps.
pub proof fn lemma_keeps_concat(a: Seq<char>, kept_a: Seq<char>, b: Seq<char>, kept_b: Seq<char>)
    requires
        keeps(a, kept_a),
        keeps(b, kept_b),
    ensures
        keeps(a + b, kept_a + kept_b),
    decreases a.len(),
{
    if a.len() == 0 {
    } else {
        assert((a + b).drop_first() =~= a.drop_first() + b);
        if kept_a.len() > 0 && a[0] == kept_a[0] && keeps(a.drop_first(), kept_a.drop_first()) {
            lemma_keeps_concat(a.drop_first(), kept_a.drop_first(), b, kept_b);
            assert((kept_a + kept_b).drop_first() =~= kept_a.drop_first() + kept_b);
        } else {
            lemma_keeps_concat(a.drop_first(), kept_a, b, kept_b);
        }
    }
}

/// Of a run of one delimiter any shorter run may be kept.
pub proof fn lemma_keeps_shorter_run(mark: char, count: nat, kept: nat)
    requires
        is_delimiter(mark),
        kept <= count,
    ensures
        keeps(repeated(mark, count), repeated(mark, kept)),
{
    let rest = repeated(mark, (count - kept) as nat);
    lemma_keeps_all(repeated(mark, kept));
    lemma_keeps_none(rest);
    lemma_keeps_concat(repeated(mark, kept), repeated(mark, kept), rest, Seq::empty());
    assert(repeated(mark, kept) + rest =~= repeated(mark, count));
}

/// The characters of two token sequences, one after the other.
pub proof fn lemma_tokens_text_concat(a: Seq<SpecToken>, b: Seq<SpecToken>)
    ensures
        tokens_text(a + b) == tokens_text(a) + tokens_text(b),
    decreases b.len(),
{
    if b.len() == 0 {
    } else {
        lemma_tokens_text_concat(a, b.drop_last());
        assert((a + b).drop_last() =~= a + b.drop_last());
    }
}

/// The characters of a range are those of its two parts.
pub proof fn lemma_range_text_split(tokens: Seq<SpecToken>, from: int, mid: int, end: int)
    requires
        0 <= from <= mid <= end <= tokens.len(),
    ensures
        range_text(tokens, from, end) == range_text(tokens, from, mid) + range_text(
            tokens,
            mid,
            end,
        ),
{
    lemma_tokens_text_concat(tokens.subrange(from, mid), tokens.subrange(mid, end));
    assert(tokens.subrange(from, mid) + tokens.subrange(mid, end) =~= tokens.subrange(from, end));
}

/// The characters of a range of one token are those of the token.
pub proof fn lemma_range_text_one(tokens: Seq<SpecToken>, at: int)
    requires
        0 <= at < tokens.len(),
    ensures
        range_text(tokens, at, at + 1) == tokens[at].text(),
{
    let one = tokens.subrange(at, at + 1);
    assert(tokens_text(one.drop_last()) =~= Seq::<char>::empty());
}

/// The characters of a range, from its first token on.
pub proof fn lemma_range_text_first(tokens: Seq<SpecToken>, from: int, end: int)
    requires
        0 <= from < end <= tokens.len(),
    ensures
        range_text(tokens, from, end) == tokens[from].text() + range_text(tokens, from + 1, end),
{
    lemma_range_text_split(tokens, from, from + 1, end);
    lemma_range_text_one(tokens, from);
}

/// Two ranges of tokens that stand for the same characters, token by token,
/// stand for the same characters.
pub proof fn lemma_range_text_same(
    a: Seq<SpecToken>,
    a_from: int,
    b: Seq<SpecToken>,
    b_from: int,
    len: int,
)
    requires
        0 <= len,
        0 <= a_from,
        a_from + len <= a.len(),
        0 <= b_from,
        b_from + len <= b.len(),
        forall|k: int| 0 <= k < len ==> (#[trigger] a[a_from + k]).text() == b[b_from + k].text(),
    ensures
        range_text(a, a_from, a_from + len) == range_text(b, b_from, b_from + len),
    decreases len,
{
    if len == 0 {
    } else {
        lemma_range_text_same(a, a_from, b, b_from, len - 1);
        lemma_range_text_split(a, a_from, a_from + len - 1, a_from + len);
        lemma_range_text_split(b, b_from, b_from + len - 1, b_from + len);
        lemma_range_text_one(a, a_from + len - 1);
        lemma_range_text_one(b, b_from + len - 1);
    }
}

/// The text of a list of nodes that ends with `last`.
pub proof fn lemma_exprs_text_push(nodes: Seq<SpecExpr>, last: SpecExpr)
    ensures
        exprs_text(nodes.push(last)) == exprs_text(nodes) + expr_text(last),
{
    assert(nodes.push(last).drop_last() =~= nodes);
}

/// Text that is added to a list of nodes is added to its text.
pub proof fn lemma_append_text_text(nodes: Seq<SpecExpr>, text: Seq<char>)
    ensures
        exprs_text(append_text(nodes, text)) == exprs_text(nodes) + text,
{
    if nodes.len() > 0 && nodes.last() is Text {
        let front = nodes.drop_last();
        let last = nodes.last()->Text_0;
        lemma_exprs_text_push(front, SpecExpr::Text(last + text));
        assert(expr_text(nodes.last()) == last);
    } else {
        lemma_exprs_text_push(nodes, SpecExpr::Text(text));
    }
}

/// The expression that a list of nodes stands for has the text of the list.
pub proof fn lemma_tidy_text(nodes: Seq<SpecExpr>)
    ensures
        expr_text(tidy(nodes)) == exprs_text(nodes),
{
    if nodes.len() == 1 {
        assert(exprs_text(nodes.drop_last()) =~= Seq::<char>::empty());
    }
}

/// An emphasis has the text of what it wraps.
pub proof fn lemma_emphasis_text(strength: nat, body: SpecExpr)
    ensures
        expr_text(emphasis(strength, body)) == expr_text(body),
{
}

/// Of a matched pair of runs and what lies between them, the emphasis keeps
/// what the body keeps and the markers that one run has in excess.
pub proof fn lemma_push_emphasis_keeps(
    nodes: Seq<SpecExpr>,
    open: SpecToken,
    close: SpecToken,
    body: SpecExpr,
    source: Seq<char>,
    between: Seq<char>,
)
    requires
        open is Asterisk || open is Underscore,
        open.same_kind(close),
        keeps(source, exprs_text(nodes)),
        keeps(between, expr_text(body)),
    ensures
        keeps(
            source + (open.text() + between + close.text()),
            exprs_text(push_emphasis(nodes, open, close, body)),
        ),
{
    let left = count_of(open);
    let right = count_of(close);
    let mark = marker_char(open);
    let before = if left > right {
        repeated(mark, (left - right) as nat)
    } else {
        Seq::<char>::empty()
    };
    let after = if right > left {
        repeated(mark, (right - left) as nat)
    } else {
        Seq::<char>::empty()
    };
    let shorter = if left <= right {
        left
    } else {
        right
    };
    lemma_emphasis_text(shorter, body);
    if left > right {
        lemma_exprs_text_push(nodes, SpecExpr::Text(before));
        lemma_exprs_text_push(nodes.push(SpecExpr::Text(before)), emphasis(right, body));
    } else if right > left {
        lemma_exprs_text_push(nodes, emphasis(left, body));
        lemma_exprs_text_push(nodes.push(emphasis(left, body)), SpecExpr::Text(after));
    } else {
        lemma_exprs_text_push(nodes, emphasis(left, body));
    }
    assert(exprs_text(push_emphasis(nodes, open, close, body)) =~= exprs_text(nodes) + (before
        + expr_text(body) + after));
    assert(repeated(mark, 0) =~= Seq::<char>::empty());
    lemma_keeps_shorter_run(mark, left, (left - shorter) as nat);
    lemma_keeps_shorter_run(mark, right, (right - shorter) as nat);
    lemma_keeps_concat(open.text(), before, between, expr_text(body));
    lemma_keeps_concat(open.text() + between, before + expr_text(body), close.text(), after);
    lemma_keeps_concat(
        source,
        exprs_text(nodes),
        open.text() + between + close.text(),
        before + expr_text(body) + after,
    );
}

/// Of a complete link the expression keeps what title and address keep; the
/// brackets and parentheses are left out.
pub proof fn lemma_push_link_keeps(
    nodes: Seq<SpecExpr>,
    title: SpecExpr,
    address: SpecExpr,
    source: Seq<char>,
    title_source: Seq<char>,
    address_source: Seq<char>,
)
    requires
        keeps(source, exprs_text(nodes)),
        keeps(title_source, expr_text(title)),
        keeps(address_source, expr_text(address)),
    ensures
        keeps(
            source + (seq!['['] + title_source + seq![']'] + seq!['('] + address_source + seq![')']),
            exprs_text(nodes.push(SpecExpr::Link(Box::new(title), Box::new(address)))),
        ),
{
    let none = Seq::<char>::empty();
    let link = SpecExpr::Link(Box::new(title), Box::new(address));
    lemma_exprs_text_push(nodes, link);
    lemma_keeps_none(seq!['[']);
    lemma_keeps_none(seq![']']);
    lemma_keeps_none(seq!['(']);
    lemma_keeps_none(seq![')']);
    lemma_keeps_concat(seq!['['], none, title_source, expr_text(title));
    lemma_keeps_concat(seq!['['] + title_source, none + expr_text(title), seq![']'], none);
    lemma_keeps_concat(
        seq!['['] + title_source + seq![']'],
        none + expr_text(title) + none,
        seq!['('],
        none,
    );
    lemma_keeps_concat(
        seq!['['] + title_source + seq![']'] + seq!['('],
        none + expr_text(title) + none + none,
        address_source,
        expr_text(address),
    );
    lemma_keeps_concat(
        seq!['['] + title_source + seq![']'] + seq!['('] + address_source,
        none + expr_text(title) + none + none + expr_text(address),
        seq![')'],
        none,
    );
    lemma_keeps_concat(
        source,
        exprs_text(nodes),
        seq!['['] + title_source + seq![']'] + seq!['('] + address_source + seq![')'],
        expr_text(link),
    );
}

/// The tokens of an incomplete link stand for the same characters when its
/// brackets are turned into words.
pub proof fn lemma_literal_span_text(tokens: Seq<SpecToken>, from: int, close: int, span_end: int)
    requires
        0 <= from < span_end <= tokens.len(),
        tokens[from] is LBracket,
        from < close,
        close < span_end ==> tokens[close] is RBracket,
    ensures
        seq!['['] + range_text(
            literal_span(tokens, from, close, span_end),
            1,
            span_end - from,
        ) == range_text(tokens, from, span_end),
{
    let literal = literal_span(tokens, from, close, span_end);
    assert forall|k: int| 0 <= k < span_end - from - 1 implies (#[trigger] literal[1 + k]).text()
        == tokens[from + 1 + k].text() by {}
    lemma_range_text_same(literal, 1, tokens, from + 1, span_end - from - 1);
    lemma_range_text_first(tokens, from, span_end);
}

/// What an emphasis adds keeps the text of its tokens, where its body does.
proof fn lemma_emphasis_step_keeps(
    tokens: Seq<SpecToken>,
    from: int,
    end: int,
    nodes: Seq<SpecExpr>,
    source: Seq<char>,
)
    requires
        0 <= from < end <= tokens.len(),
        is_emphasis(tokens, from, end),
        keeps(source, exprs_text(nodes)),
        keeps(
            range_text(tokens, from + 1, closing_run(tokens, from, end)),
            exprs_text(scan(tokens, from + 1, closing_run(tokens, from, end), Seq::empty())),
        ),
    ensures
        keeps(
            source + range_text(tokens, from, step_end(tokens, from, end)),
            exprs_text(step(tokens, from, end, nodes)),
        ),
{
    let close = closing_run(tokens, from, end);
    lemma_first_of_kind(tokens, tokens[from], from + 1, end);
    let inner = scan(tokens, from + 1, close, Seq::empty());
    let between = range_text(tokens, from + 1, close);
    lemma_tidy_text(inner);
    lemma_push_emphasis_keeps(nodes, tokens[from], tokens[close], tidy(inner), source, between);
    lemma_range_text_first(tokens, from, close + 1);
    lemma_range_text_split(tokens, from + 1, close, close + 1);
    lemma_range_text_one(tokens, close);
    assert(tokens[from].text() + between + tokens[close].text() =~= range_text(
        tokens,
        from,
        close + 1,
    ));
}

/// What a complete link adds keeps the text of its tokens, where its title
/// and its address do.
proof fn lemma_link_step_keeps(
    tokens: Seq<SpecToken>,
    from: int,
    end: int,
    nodes: Seq<SpecExpr>,
    source: Seq<char>,
)
    requires
        0 <= from < end <= tokens.len(),
        tokens[from] is LBracket,
        is_link(tokens, from, end),
        keeps(source, exprs_text(nodes)),
        keeps(
            range_text(tokens, from + 1, title_end(tokens, from, end)),
            exprs_text(scan(tokens, from + 1, title_end(tokens, from, end), Seq::empty())),
        ),
        keeps(
            range_text(tokens, title_end(tokens, from, end) + 2, address_end(tokens, from, end)),
            exprs_text(
                scan(
                    tokens,
                    title_end(tokens, from, end) + 2,
                    address_end(tokens, from, end),
                    Seq::empty(),
                ),
            ),
        ),
    ensures
        keeps(
            source + range_text(tokens, from, step_end(tokens, from, end)),
            exprs_text(step(tokens, from, end, nodes)),
        ),
{
    let close = title_end(tokens, from, end);
    let paren = address_end(tokens, from, end);
    lemma_first_of_kind(tokens, SpecToken::RBracket, from + 1, end);
    lemma_first_of_kind(tokens, SpecToken::RParen, close + 2, end);
    let title_nodes = scan(tokens, from + 1, close, Seq::empty());
    let address_nodes = scan(tokens, close + 2, paren, Seq::empty());
    lemma_tidy_text(title_nodes);
    lemma_tidy_text(address_nodes);
    let title_source = range_text(tokens, from + 1, close);
    let address_source = range_text(tokens, close + 2, paren);
    lemma_push_link_keeps(
        nodes,
        tidy(title_nodes),
        tidy(address_nodes),
        source,
        title_source,
        address_source,
    );
    lemma_range_text_first(tokens, from, paren + 1);
    lemma_range_text_split(tokens, from + 1, close, paren + 1);
    lemma_range_text_first(tokens, close, paren + 1);
    lemma_range_text_first(tokens, close + 1, paren + 1);
    lemma_range_text_split(tokens, close + 2, paren, paren + 1);
    lemma_range_text_one(tokens, paren);
    assert(seq!['['] + title_source + seq![']'] + seq!['('] + address_source + seq![')']
        =~= range_text(tokens, from, paren + 1));
}

/// What an incomplete link adds keeps the text of its tokens, where the
/// tokens with the brackets read as words do.
proof fn lemma_broken_link_step_keeps(
    tokens: Seq<SpecToken>,
    from: int,
    end: int,
    nodes: Seq<SpecExpr>,
    source: Seq<char>,
)
    requires
        0 <= from < end <= tokens.len(),
        tokens[from] is LBracket,
        !is_link(tokens, from, end),
        keeps(source, exprs_text(nodes)),
        ({
            let span_end = broken_link_end(tokens, from, end);
            let literal = literal_span(tokens, from, title_end(tokens, from, end), span_end);
            keeps(
                seq!['['] + range_text(literal, 1, span_end - from),
                exprs_text(scan(literal, 1, span_end - from, seq![SpecExpr::Text(seq!['['])])),
            )
        }),
    ensures
        keeps(
            source + range_text(tokens, from, step_end(tokens, from, end)),
            exprs_text(step(tokens, from, end, nodes)),
        ),
{
    let close = title_end(tokens, from, end);
    let span_end = broken_link_end(tokens, from, end);
    lemma_first_of_kind(tokens, SpecToken::RBracket, from + 1, end);
    let literal = literal_span(tokens, from, close, span_end);
    let inner = scan(literal, 1, span_end - from, seq![SpecExpr::Text(seq!['['])]);
    lemma_tidy_text(inner);
    lemma_literal_span_text(tokens, from, close, span_end);
    lemma_exprs_text_push(nodes, tidy(inner));
    lemma_keeps_concat(
        source,
        exprs_text(nodes),
        range_text(tokens, from, span_end),
        exprs_text(inner),
    );
}

/// What a token that stands for itself adds keeps its text.
proof fn lemma_plain_step_keeps(
    tokens: Seq<SpecToken>,
    from: int,
    end: int,
    nodes: Seq<SpecExpr>,
    source: Seq<char>,
)
    requires
        0 <= from < end <= tokens.len(),
        !is_emphasis(tokens, from, end),
        !(tokens[from] is LBracket),
        keeps(source, exprs_text(nodes)),
    ensures
        keeps(
            source + range_text(tokens, from, step_end(tokens, from, end)),
            exprs_text(step(tokens, from, end, nodes)),
        ),
{
    let text = tokens[from].text();
    lemma_append_text_text(nodes, text);
    lemma_keeps_all(text);
    lemma_keeps_concat(source, exprs_text(nodes), text, text);
    lemma_range_text_one(tokens, from);
}

/// What the construct at `from` adds to `nodes` keeps the text of its
/// tokens.
pub proof fn lemma_step_keeps_text(
    tokens: Seq<SpecToken>,
    from: int,
    end: int,
    nodes: Seq<SpecExpr>,
    source: Seq<char>,
)
    requires
        0 <= from < end <= tokens.len(),
        keeps(source, exprs_text(nodes)),
    ensures
        keeps(
            source + range_text(tokens, from, step_end(tokens, from, end)),
            exprs_text(step(tokens, from, end, nodes)),
        ),
    decreases end - from, 0int,
{
    let none = Seq::<char>::empty();
    let no_nodes = Seq::<SpecExpr>::empty();
    lemma_keeps_all(none);
    if is_emphasis(tokens, from, end) {
        let close = closing_run(tokens, from, end);
        lemma_first_of_kind(tokens, tokens[from], from + 1, end);
        lemma_scan_keeps_text(tokens, from + 1, close, no_nodes, none);
        lemma_emphasis_step_keeps(tokens, from, end, nodes, source);
    } else if tokens[from] is LBracket && is_link(tokens, from, end) {
        let close = title_end(tokens, from, end);
        let paren = address_end(tokens, from, end);
        lemma_first_of_kind(tokens, SpecToken::RBracket, from + 1, end);
        lemma_first_of_kind(tokens, SpecToken::RParen, close + 2, end);
        lemma_scan_keeps_text(tokens, from + 1, close, no_nodes, none);
        lemma_scan_keeps_text(tokens, close + 2, paren, no_nodes, none);
        lemma_link_step_keeps(tokens, from, end, nodes, source);
    } else if tokens[from] is LBracket {
        let close = title_end(tokens, from, end);
        let span_end = broken_link_end(tokens, from, end);
        lemma_first_of_kind(tokens, SpecToken::RBracket, from + 1, end);
        let literal = literal_span(tokens, from, close, span_end);
        let opened = seq![SpecExpr::Text(seq!['['])];
        lemma_tidy_text(opened);
        lemma_keeps_all(seq!['[']);
        lemma_scan_keeps_text(literal, 1, span_end - from, opened, seq!['[']);
        lemma_broken_link_step_keeps(tokens, from, end, nodes, source);
    } else {
        lemma_plain_step_keeps(tokens, from, end, nodes, source);
    }
}

/// The text of the nodes that a range of tokens adds is the text of the
/// tokens with some delimiters left out.
pub proof fn lemma_scan_keeps_text(
    tokens: Seq<SpecToken>,
    from: int,
    end: int,
    nodes: Seq<SpecExpr>,
    source: Seq<char>,
)
    requires
        0 <= from <= end <= tokens.len(),
        keeps(source, exprs_text(nodes)),
    ensures
        keeps(source + range_text(tokens, from, end), exprs_text(scan(tokens, from, end, nodes))),
    decreases end - from, 1int,
{
    if from >= end {
    } else {
        let next = step_end(tokens, from, end);
        lemma_step_end(tokens, from, end);
        lemma_step_keeps_text(tokens, from, end, nodes, source);
        lemma_scan_keeps_text(
            tokens,
            next,
            end,
            step(tokens, from, end, nodes),
            source + range_text(tokens, from, next),
        );
        lemma_range_text_split(tokens, from, next, end);
        assert(source + range_text(tokens, from, next) + range_text(tokens, next, end) =~= source
            + range_text(tokens, from, end));
    }
}

/// The text of a parsed line is the text of its tokens with some
/// delimiters left out: no other character is lost, none is added, and
/// none changes its place.
pub proof fn lemma_inline_keeps_text(tokens: Seq<SpecToken>, from: int)
    requires
        0 <= from <= tokens.len(),
    ensures
        keeps(
            range_text(tokens, from, line_end(tokens, from)),
            expr_text(parsed_inline(tokens, from)),
        ),
{
    let end = line_end(tokens, from);
    let none = Seq::<char>::empty();
    lemma_first_of_kind(tokens, SpecToken::NewLine, from, tokens.len() as int);
    lemma_keeps_all(none);
    lemma_scan_keeps_text(tokens, from, end, Seq::empty(), none);
    lemma_tidy_text(scan(tokens, from, end, Seq::empty()));
}

/// Whether `tokens[from..end)` hold two emphasis runs of one marker.
pub open spec fn has_run_pair(tokens: Seq<SpecToken>, from: int, end: int) -> bool {
    exists|i: int, j: int|
        #![trigger tokens[i], tokens[j]]
        from <= i < j < end && (tokens[i] is Asterisk || tokens[i] is Underscore)
            && tokens[i].same_kind(tokens[j])
}

/// Whether `tokens[from..end)` hold the shape of a link: a `[`, after it a
/// `]` that a `(` follows at once, and after that a `)`.
pub open spec fn has_link_shape(tokens: Seq<SpecToken>, from: int, end: int) -> bool {
    exists|i: int, j: int, k: int|
        #![trigger tokens[i], tokens[j], tokens[k]]
        from <= i < j && j + 1 < k < end && tokens[i] is LBracket && tokens[j] is RBracket
            && tokens[j + 1] is LParen && tokens[k] is RParen
}

/// Whether nothing in `tokens[from..end)` can be closed: no emphasis run
/// has a partner, and no bracket has what a link needs.
pub open spec fn nothing_closes(tokens: Seq<SpecToken>, from: int, end: int) -> bool {
    !has_run_pair(tokens, from, end) && !has_link_shape(tokens, from, end)
}

/// Where nothing can be closed in a range, nothing can be closed in a part
/// of it.
pub proof fn lemma_nothing_closes_within(
    tokens: Seq<SpecToken>,
    from: int,
    end: int,
    inner_from: int,
    inner_end: int,
)
    requires
        from <= inner_from,
        inner_end <= end,
        nothing_closes(tokens, from, end),
    ensures
        nothing_closes(tokens, inner_from, inner_end),
{
    if has_run_pair(tokens, inner_from, inner_end) {
        let (i, j) = choose|i: int, j: int|
            #![trigger tokens[i], tokens[j]]
            inner_from <= i < j < inner_end && (tokens[i] is Asterisk || tokens[i] is Underscore)
                && tokens[i].same_kind(tokens[j]);
    }
    if has_link_shape(tokens, inner_from, inner_end) {
        let (i, j, k) = choose|i: int, j: int, k: int|
            #![trigger tokens[i], tokens[j], tokens[k]]
            inner_from <= i < j && j + 1 < k < inner_end && tokens[i] is LBracket
                && tokens[j] is RBracket && tokens[j + 1] is LParen && tokens[k] is RParen;
    }
}

/// Where nothing can be closed in a range, nothing can be closed among the
/// tokens of an incomplete link of that range, read with its brackets as
/// words.
pub proof fn lemma_nothing_closes_in_literal_span(
    tokens: Seq<SpecToken>,
    from: int,
    close: int,
    span_end: int,
)
    requires
        0 <= from < span_end <= tokens.len(),
        nothing_closes(tokens, from, span_end),
    ensures
        nothing_closes(literal_span(tokens, from, close, span_end), 1, span_end - from),
{
    let literal = literal_span(tokens, from, close, span_end);
    let len = span_end - from;
    if has_run_pair(literal, 1, len) {
        let (i, j) = choose|i: int, j: int|
            #![trigger literal[i], literal[j]]
            1 <= i < j < len && (literal[i] is Asterisk || literal[i] is Underscore)
                && literal[i].same_kind(literal[j]);
    }
    if has_link_shape(literal, 1, len) {
        let (i, j, k) = choose|i: int, j: int, k: int|
            #![trigger literal[i], literal[j], literal[k]]
            1 <= i < j && j + 1 < k < len && literal[i] is LBracket && literal[j] is RBracket
                && literal[j + 1] is LParen && literal[k] is RParen;
    }
}

/// Text that is added to a list of nodes is added to its HTML.
pub proof fn lemma_append_text_html(nodes: Seq<SpecExpr>, text: Seq<char>)
    ensures
        exprs_html(append_text(nodes, text)) == exprs_html(nodes) + text,
{
    if nodes.len() > 0 && nodes.last() is Text {
        let front = nodes.drop_last();
        let last = nodes.last()->Text_0;
        lemma_exprs_html_push(front, SpecExpr::Text(last + text));
        assert(expr_html(nodes.last()) == last);
    } else {
        lemma_exprs_html_push(nodes, SpecExpr::Text(text));
    }
}

/// The expression that a list of nodes stands for has the HTML of the list.
pub proof fn lemma_tidy_html(nodes: Seq<SpecExpr>)
    ensures
        expr_html(tidy(nodes)) == exprs_html(nodes),
{
    if nodes.len() == 1 {
        assert(exprs_html(nodes.drop_last()) =~= Seq::<char>::empty());
    }
}

/// Where nothing can be closed, the construct at `from` adds the characters
/// of its tokens, and nothing else.
pub proof fn lemma_step_is_literal(
    tokens: Seq<SpecToken>,
    from: int,
    end: int,
    nodes: Seq<SpecExpr>,
)
    requires
        0 <= from < end <= tokens.len(),
        nothing_closes(tokens, from, end),
    ensures
        exprs_html(step(tokens, from, end, nodes)) == exprs_html(nodes) + range_text(
            tokens,
            from,
            step_end(tokens, from, end),
        ),
    decreases end - from, 0int,
{
    let bracket = title_end(tokens, from, end);
    lemma_first_of_kind(tokens, tokens[from], from + 1, end);
    lemma_first_of_kind(tokens, SpecToken::RBracket, from + 1, end);
    if is_emphasis(tokens, from, end) {
        // The run and the run that closes it would be a pair.
    } else if tokens[from] is LBracket && is_link(tokens, from, end) {
        // The bracket, its `](` and its `)` would be the shape of a link.
        lemma_first_of_kind(tokens, SpecToken::RParen, bracket + 2, end);
    } else if tokens[from] is LBracket {
        let span_end = broken_link_end(tokens, from, end);
        let literal = literal_span(tokens, from, bracket, span_end);
        let opened = seq![SpecExpr::Text(seq!['['])];
        lemma_nothing_closes_within(tokens, from, end, from, span_end);
        lemma_nothing_closes_in_literal_span(tokens, from, bracket, span_end);
        lemma_scan_is_literal(literal, 1, span_end - from, opened);
        lemma_tidy_html(opened);
        let inner = scan(literal, 1, span_end - from, opened);
        lemma_tidy_html(inner);
        lemma_literal_span_text(tokens, from, bracket, span_end);
        lemma_exprs_html_push(nodes, tidy(inner));
    } else {
        lemma_append_text_html(nodes, tokens[from].text());
        lemma_range_text_one(tokens, from);
    }
}

/// Where nothing can be closed, a range of tokens adds its own characters,
/// and nothing else.
pub proof fn lemma_scan_is_literal(
    tokens: Seq<SpecToken>,
    from: int,
    end: int,
    nodes: Seq<SpecExpr>,
)
    requires
        0 <= from <= end <= tokens.len(),
        nothing_closes(tokens, from, end),
    ensures
        exprs_html(scan(tokens, from, end, nodes)) == exprs_html(nodes) + range_text(
            tokens,
            from,
            end,
        ),
    decreases end - from, 1int,
{
    if from >= end {
    } else {
        let next = step_end(tokens, from, end);
        lemma_step_end(tokens, from, end);
        lemma_step_is_literal(tokens, from, end, nodes);
        lemma_nothing_closes_within(tokens, from, end, next, end);
        lemma_scan_is_literal(tokens, next, end, step(tokens, from, end, nodes));
        lemma_range_text_split(tokens, from, next, end);
    }
}

/// A line in which nothing can be closed is rendered as its own characters:
/// a run without a partner and a bracket without what a link needs are
/// there with every character they were written with.
pub proof fn lemma_unclosed_line_is_literal(tokens: Seq<SpecToken>, from: int)
    requires
        0 <= from <= tokens.len(),
        nothing_closes(tokens, from, line_end(tokens, from)),
    ensures
        expr_html(parsed_inline(tokens, from)) == range_text(
            tokens,
            from,
            line_end(tokens, from),
        ),
{
    let end = line_end(tokens, from);
    let no_nodes = Seq::<SpecExpr>::empty();
    lemma_first_of_kind(tokens, SpecToken::NewLine, from, tokens.len() as int);
    lemma_scan_is_literal(tokens, from, end, no_nodes);
    lemma_tidy_html(scan(tokens, from, end, no_nodes));
}

/// A line that opens as no heading and no list item, and in which nothing
/// can be closed, is a paragraph of its own characters: a list marker that
/// is not well formed stays in the text.
pub proof fn lemma_plain_line_is_literal(tokens: Seq<SpecToken>, from: int, end: int)
    requires
        0 <= from <= end <= tokens.len(),
        !is_heading_line(tokens, from, end),
        !is_ordered_line(tokens, from, end),
        !is_bullet_line(tokens, from, end),
        nothing_closes(tokens, from, end),
    ensures
        parsed_line(tokens, from, end) is Plain,
        paragraph_html(parsed_line(tokens, from, end)->Plain_0) == "<p>"@ + range_text(
            tokens,
            from,
            end,
        ) + "</p>"@,
{
    let no_nodes = Seq::<SpecExpr>::empty();
    lemma_scan_is_literal(tokens, from, end, no_nodes);
    lemma_tidy_html(scan(tokens, from, end, no_nodes));
}

/// The number of tokens at the beginning of the line `tokens[from..end)`
/// that mark it as a heading or as an item of a list; zero for a paragraph.
pub open spec fn block_marker_len(tokens: Seq<SpecToken>, from: int, end: int) -> int {
    if is_heading_line(tokens, from, end) {
        2
    } else if is_ordered_line(tokens, from, end) {
        3
    } else if is_task_line(tokens, from, end) {
        6
    } else if is_bullet_line(tokens, from, end) {
        2
    } else {
        0
    }
}

/// The body of the statement of a line is the inline expression of what
/// follows the block marker, and its text is what those tokens stand for
/// with some delimiters left out.
pub proof fn lemma_line_keeps_text(tokens: Seq<SpecToken>, from: int, end: int)
    requires
        0 <= from <= end <= tokens.len(),
    ensures
        from + block_marker_len(tokens, from, end) <= end,
        statement_body(parsed_line(tokens, from, end)) == body_of(
            tokens,
            from + block_marker_len(tokens, from, end),
            end,
        ),
        keeps(
            range_text(tokens, from + block_marker_len(tokens, from, end), end),
            expr_text(statement_body(parsed_line(tokens, from, end))),
        ),
{
    let start = from + block_marker_len(tokens, from, end);
    let none = Seq::<char>::empty();
    lemma_keeps_all(none);
    lemma_scan_keeps_text(tokens, start, end, Seq::empty(), none);
    lemma_tidy_text(scan(tokens, start, end, Seq::empty()));
    assert(none + range_text(tokens, start, end) =~= range_text(tokens, start, end));
}

/// Merged tokens hold a `NewLine` only where the tokens they were merged
/// from hold one.
pub proof fn lemma_coalesced_without_line_break(tokens: Seq<SpecToken>)
    requires
        forall|i: int| 0 <= i < tokens.len() ==> !(#[trigger] tokens[i] is NewLine),
    ensures
        forall|i: int|
            0 <= i < coalesced(tokens).len() ==> !(#[trigger] coalesced(tokens)[i] is NewLine),
    decreases tokens.len(),
{
    if tokens.len() > 0 {
        lemma_coalesced_without_line_break(tokens.drop_last());
    }
}

/// A text of one line in which nothing can be closed, and which opens as
/// no heading and no list item, is rendered as a paragraph of its own
/// characters, where its numerals are written the plain way.
pub proof fn lemma_plain_text_is_literal(text: Seq<char>)
    requires
        forall|i: int| 0 <= i < text.len() ==> #[trigger] text[i] != '\n',
        numerals_are_plain(text),
        nothing_closes(tokenized(text), 0, tokenized(text).len() as int),
        !is_heading_line(tokenized(text), 0, tokenized(text).len() as int),
        !is_ordered_line(tokenized(text), 0, tokenized(text).len() as int),
        !is_bullet_line(tokenized(text), 0, tokenized(text).len() as int),
    ensures
        rendered(text) == "<p>"@ + text + "</p>"@,
{
    let tokens = tokenized(text);
    let len = tokens.len() as int;
    assert forall|i: int| 0 <= i < unit_tokens(text).len() implies !(#[trigger] unit_tokens(
        text,
    )[i] is NewLine) by {}
    lemma_coalesced_without_line_break(unit_tokens(text));
    lemma_first_of_kind(tokens, SpecToken::NewLine, 0, len);
    lemma_plain_line_is_literal(tokens, 0, len);
    lemma_tokenized_text(text);
    assert(tokens.subrange(0, len) =~= tokens);
}

} // verus!
