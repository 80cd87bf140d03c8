//! What holds of every token stream: no two neighbours of one repeatable
//! kind, and, where the numerals of the text are written the plain way, the
//! very characters of the text.

use crate::lexer::{
    coalesce_push, coalesced, fully_coalesced, tokenized, tokens_text, unit_token, unit_tokens,
    SpecToken,
};
use crate::text::{decimal, digit_char, digit_value, is_digit, repeated};
use vstd::prelude::*;

verus! {

/// Merged tokens hold no two neighbours of one repeatable kind.
pub proof fn lemma_coalesced_is_fully_coalesced(tokens: Seq<SpecToken>)
    ensures
        fully_coalesced(coalesced(tokens)),
    decreases tokens.len(),
{
    if tokens.len() > 0 {
        lemma_coalesced_is_fully_coalesced(tokens.drop_last());
    }
}

/// In a token stream no token of a repeatable kind is followed by a token
/// of the same kind.
pub proof fn lemma_tokenized_is_fully_coalesced(text: Seq<char>)
    ensures
        fully_coalesced(tokenized(text)),
{
    lemma_coalesced_is_fully_coalesced(unit_tokens(text));
}

/// The value of the digits that stand just before `at`; zero where no digit
/// stands there.
pub open spec fn numeral_before(text: Seq<char>, at: int) -> nat
    decreases at,
{
    if at <= 0 || at > text.len() || !is_digit(text[at - 1]) {
        0
    } else {
        numeral_before(text, at - 1) * 10 + digit_value(text[at - 1])
    }
}

/// Whether every numeral of `text` is written the plain way: none goes on
/// after a value of zero, and none is above `usize::MAX`.
pub open spec fn numerals_are_plain(text: Seq<char>) -> bool {
    forall|i: int|
        0 < i < text.len() && is_digit(#[trigger] text[i]) && is_digit(text[i - 1])
            ==> numeral_before(text, i) >= 1 && numeral_before(text, i + 1) <= usize::MAX
}

/// The token of a character stands for that character.
pub proof fn lemma_unit_token_text(c: char)
    ensures
        unit_token(c).text() == seq![c],
{
}

/// The characters of a token sequence that ends with `last`.
pub proof fn lemma_tokens_text_push(tokens: Seq<SpecToken>, last: SpecToken)
    ensures
        tokens_text(tokens.push(last)) == tokens_text(tokens) + last.text(),
{
    assert(tokens.push(last).drop_last() =~= tokens);
}

/// The numeral of a value that takes one more digit is the numeral of the
/// value and then the digit.
pub proof fn lemma_decimal_next(value: nat, digit: nat)
    requires
        value >= 1,
        digit < 10,
    ensures
        decimal(value * 10 + digit) == decimal(value).push(digit_char(digit)),
{
}

/// A unit token that joins a token sequence adds its character to the
/// characters of the sequence, unless it is a digit that makes a numeral
/// that is not plain.
proof fn lemma_coalesce_push_text(merged: Seq<SpecToken>, c: char)
    requires
        merged.len() > 0 && merged.last() is Number && is_digit(c) ==> merged.last()->Number_0 >= 1
            && merged.last()->Number_0 * 10 + digit_value(c) <= usize::MAX,
    ensures
        tokens_text(coalesce_push(merged, unit_token(c))) == tokens_text(merged).push(c),
{
    let unit = unit_token(c);
    lemma_unit_token_text(c);
    if merged.len() > 0 && merged.last().coalescible() && merged.last().same_kind(unit) {
        let front = merged.drop_last();
        let last = merged.last();
        lemma_tokens_text_push(front, last.merged(unit));
        match last {
            SpecToken::Word(a) => {
            },
            SpecToken::Heading(a) => {
            },
            SpecToken::WhiteSpace(a) => {
            },
            SpecToken::Asterisk(a) => {
            },
            SpecToken::Underscore(a) => {
            },
            SpecToken::Number(a) => {
                lemma_decimal_next(a, digit_value(c));
            },
            _ => {},
        }
    } else {
        lemma_tokens_text_push(merged, unit);
    }
}

/// The token stream of the first `len` characters of a text whose numerals
/// are plain stands for those characters, and ends with the numeral that
/// the text ends with, where it ends with one.
proof fn lemma_tokenized_prefix(text: Seq<char>, len: int)
    requires
        numerals_are_plain(text),
        0 <= len <= text.len(),
    ensures
        tokens_text(coalesced(unit_tokens(text).take(len))) == text.take(len),
        len > 0 ==> coalesced(unit_tokens(text).take(len)).len() > 0,
        len > 0 && is_digit(text[len - 1]) ==> coalesced(unit_tokens(text).take(len)).last()
            == SpecToken::Number(numeral_before(text, len)) && numeral_before(text, len)
            <= usize::MAX,
        len > 0 && !is_digit(text[len - 1]) ==> !(coalesced(
            unit_tokens(text).take(len),
        ).last() is Number),
    decreases len,
{
    let units = unit_tokens(text);
    if len > 0 {
        let before = coalesced(units.take(len - 1));
        lemma_tokenized_prefix(text, len - 1);
        assert(units.take(len).drop_last() =~= units.take(len - 1));
        lemma_coalesce_push_text(before, text[len - 1]);
    }
}

/// The tokens of a text whose numerals are plain stand for the very
/// characters of the text.
pub proof fn lemma_tokenized_text(text: Seq<char>)
    requires
        numerals_are_plain(text),
    ensures
        tokens_text(tokenized(text)) == text,
{
    lemma_tokenized_prefix(text, text.len() as int);
    assert(unit_tokens(text).take(text.len() as int) =~= unit_tokens(text));
}

} // verus!
