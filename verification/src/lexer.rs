//! The tokenizer: every character becomes a token of its own, and
//! neighbouring tokens of one repeatable kind are then merged into a single
//! token that carries the combined text, count or number.

use crate::text::{
    decimal, digit_of, digit_value, is_digit, push_char, push_decimal, push_repeated, repeated,
};
use vstd::prelude::*;

verus! {

/// A token as a mathematical value: the view of a [`Token`].
pub enum SpecToken {
    Word(Seq<char>),
    Heading(nat),
    WhiteSpace(nat),
    Asterisk(nat),
    Underscore(nat),
    Number(nat),
    Dot,
    Hyphen,
    NewLine,
    LParen,
    RParen,
    LBracket,
    RBracket,
}

impl SpecToken {
    /// The characters that the token stands for.
    pub open spec fn text(self) -> Seq<char> {
        match self {
            SpecToken::Word(w) => w,
            SpecToken::Heading(n) => repeated('#', n),
            SpecToken::WhiteSpace(n) => repeated(' ', n),
            SpecToken::Asterisk(n) => repeated('*', n),
            SpecToken::Underscore(n) => repeated('_', n),
            SpecToken::Number(n) => decimal(n),
            SpecToken::Dot => seq!['.'],
            SpecToken::Hyphen => seq!['-'],
            SpecToken::NewLine => seq!['\n'],
            SpecToken::LParen => seq!['('],
            SpecToken::RParen => seq![')'],
            SpecToken::LBracket => seq!['['],
            SpecToken::RBracket => seq![']'],
        }
    }

    /// Whether two tokens are of the same kind, whatever they carry.
    pub open spec fn same_kind(self, other: SpecToken) -> bool {
        match (self, other) {
            (SpecToken::Word(_), SpecToken::Word(_)) => true,
            (SpecToken::Heading(_), SpecToken::Heading(_)) => true,
            (SpecToken::WhiteSpace(_), SpecToken::WhiteSpace(_)) => true,
            (SpecToken::Asterisk(_), SpecToken::Asterisk(_)) => true,
            (SpecToken::Underscore(_), SpecToken::Underscore(_)) => true,
            (SpecToken::Number(_), SpecToken::Number(_)) => true,
            (SpecToken::Dot, SpecToken::Dot) => true,
            (SpecToken::Hyphen, SpecToken::Hyphen) => true,
            (SpecToken::NewLine, SpecToken::NewLine) => true,
            (SpecToken::LParen, SpecToken::LParen) => true,
            (SpecToken::RParen, SpecToken::RParen) => true,
            (SpecToken::LBracket, SpecToken::LBracket) => true,
            (SpecToken::RBracket, SpecToken::RBracket) => true,
            _ => false,
        }
    }

    /// Whether neighbours of this kind are merged into one token.
    pub open spec fn coalescible(self) -> bool {
        self is Word || self is Heading || self is WhiteSpace || self is Asterisk
            || self is Underscore || self is Number
    }

    /// Whether the token is what a single character is classified as.
    pub open spec fn is_unit(self) -> bool {
        match self {
            SpecToken::Word(w) => w.len() == 1,
            SpecToken::Heading(n) => n == 1,
            SpecToken::WhiteSpace(n) => n == 1,
            SpecToken::Asterisk(n) => n == 1,
            SpecToken::Underscore(n) => n == 1,
            SpecToken::Number(n) => n < 10,
            _ => true,
        }
    }

    /// The token that two neighbours of one repeatable kind merge into:
    /// words are joined, counts are added, and a number takes the next
    /// digit, stopping at `usize::MAX`.
    pub open spec fn merged(self, next: SpecToken) -> SpecToken
        recommends
            self.coalescible(),
            self.same_kind(next),
    {
        match (self, next) {
            (SpecToken::Word(a), SpecToken::Word(b)) => SpecToken::Word(a + b),
            (SpecToken::Heading(a), SpecToken::Heading(b)) => SpecToken::Heading(a + b),
            (SpecToken::WhiteSpace(a), SpecToken::WhiteSpace(b)) => SpecToken::WhiteSpace(a + b),
            (SpecToken::Asterisk(a), SpecToken::Asterisk(b)) => SpecToken::Asterisk(a + b),
            (SpecToken::Underscore(a), SpecToken::Underscore(b)) => SpecToken::Underscore(a + b),
            (SpecToken::Number(a), SpecToken::Number(b)) => SpecToken::Number(
                if a * 10 + b <= usize::MAX {
                    a * 10 + b
                } else {
                    usize::MAX as nat
                },
            ),
            _ => next,
        }
    }
}

/// The token that a single character is classified as.
pub open spec fn unit_token(c: char) -> SpecToken {
    if c == '\n' {
        SpecToken::NewLine
    } else if c == '#' {
        SpecToken::Heading(1)
    } else if c == ' ' {
        SpecToken::WhiteSpace(1)
    } else if c == '*' {
        SpecToken::Asterisk(1)
    } else if c == '_' {
        SpecToken::Underscore(1)
    } else if c == '-' {
        SpecToken::Hyphen
    } else if c == '.' {
        SpecToken::Dot
    } else if c == '(' {
        SpecToken::LParen
    } else if c == ')' {
        SpecToken::RParen
    } else if c == '[' {
        SpecToken::LBracket
    } else if c == ']' {
        SpecToken::RBracket
    } else if is_digit(c) {
        SpecToken::Number(digit_value(c))
    } else {
        SpecToken::Word(seq![c])
    }
}

/// The unit tokens of a text, one for each character.
pub open spec fn unit_tokens(text: Seq<char>) -> Seq<SpecToken> {
    Seq::new(text.len(), |i: int| unit_token(text[i]))
}

/// One step of merging: `token` joins the last token of `merged` where both
/// are of one repeatable kind, and follows it otherwise.
pub open spec fn coalesce_push(merged: Seq<SpecToken>, token: SpecToken) -> Seq<SpecToken> {
    if merged.len() > 0 && merged.last().coalescible() && merged.last().same_kind(token) {
        merged.drop_last().push(merged.last().merged(token))
    } else {
        merged.push(token)
    }
}

/// The tokens of `tokens` with every run of neighbours of one repeatable
/// kind merged into a single token.
pub open spec fn coalesced(tokens: Seq<SpecToken>) -> Seq<SpecToken>
    decreases tokens.len(),
{
    if tokens.len() == 0 {
        Seq::empty()
    } else {
        coalesce_push(coalesced(tokens.drop_last()), tokens.last())
    }
}

/// The token stream of a text.
pub open spec fn tokenized(text: Seq<char>) -> Seq<SpecToken> {
    coalesced(unit_tokens(text))
}

/// No token of a repeatable kind is followed by a token of the same kind.
pub open spec fn fully_coalesced(tokens: Seq<SpecToken>) -> bool {
    forall|i: int|
        0 <= i && i + 1 < tokens.len() ==> !(#[trigger] tokens[i].coalescible()
            && tokens[i].same_kind(tokens[i + 1]))
}

/// The characters that a token sequence stands for.
pub open spec fn tokens_text(tokens: Seq<SpecToken>) -> Seq<char>
    decreases tokens.len(),
{
    if tokens.len() == 0 {
        Seq::empty()
    } else {
        tokens_text(tokens.drop_last()) + tokens.last().text()
    }
}

/// The count that a token of a counted kind carries; zero for the others.
pub open spec fn count_of(token: SpecToken) -> nat {
    match token {
        SpecToken::Heading(n) => n,
        SpecToken::WhiteSpace(n) => n,
        SpecToken::Asterisk(n) => n,
        SpecToken::Underscore(n) => n,
        _ => 0,
    }
}

/// A classified lexical unit.
#[derive(Debug, PartialEq)]
pub enum Token {
    Word(String),
    Heading(usize),
    WhiteSpace(usize),
    Asterisk(usize),
    Underscore(usize),
    Number(usize),
    Dot,
    Hyphen,
    NewLine,
    LParen,
    RParen,
    LBracket,
    RBracket,
}

impl View for Token {
    type V = SpecToken;

    open spec fn view(&self) -> SpecToken {
        match self {
            Token::Word(w) => SpecToken::Word(w@),
            Token::Heading(n) => SpecToken::Heading(*n as nat),
            Token::WhiteSpace(n) => SpecToken::WhiteSpace(*n as nat),
            Token::Asterisk(n) => SpecToken::Asterisk(*n as nat),
            Token::Underscore(n) => SpecToken::Underscore(*n as nat),
            Token::Number(n) => SpecToken::Number(*n as nat),
            Token::Dot => SpecToken::Dot,
            Token::Hyphen => SpecToken::Hyphen,
            Token::NewLine => SpecToken::NewLine,
            Token::LParen => SpecToken::LParen,
            Token::RParen => SpecToken::RParen,
            Token::LBracket => SpecToken::LBracket,
            Token::RBracket => SpecToken::RBracket,
        }
    }
}

impl DeepView for Token {
    type V = SpecToken;

    open spec fn deep_view(&self) -> SpecToken {
        self@
    }
}

impl Token {
    /// Classifies one character.
    pub fn new(c: char) -> (token: Token)
        ensures
            token@ == unit_token(c),
    {
        if c == '\n' {
            Token::NewLine
        } else if c == '#' {
            Token::Heading(1)
        } else if c == ' ' {
            Token::WhiteSpace(1)
        } else if c == '*' {
            Token::Asterisk(1)
        } else if c == '_' {
            Token::Underscore(1)
        } else if c == '-' {
            Token::Hyphen
        } else if c == '.' {
            Token::Dot
        } else if c == '(' {
            Token::LParen
        } else if c == ')' {
            Token::RParen
        } else if c == '[' {
            Token::LBracket
        } else if c == ']' {
            Token::RBracket
        } else if '0' <= c && c <= '9' {
            Token::Number(digit_of(c))
        } else {
            let mut word = String::new();
            push_char(&mut word, c);
            Token::Word(word)
        }
    }

    /// Appends the characters that the token stands for to `out`.
    pub fn write_to(&self, out: &mut String)
        ensures
            final(out)@ == old(out)@ + self@.text(),
    {
        match self {
            Token::Word(word) => out.append(word.as_str()),
            Token::Heading(count) => push_repeated(out, '#', *count),
            Token::WhiteSpace(count) => push_repeated(out, ' ', *count),
            Token::Asterisk(count) => push_repeated(out, '*', *count),
            Token::Underscore(count) => push_repeated(out, '_', *count),
            Token::Number(number) => push_decimal(out, *number),
            Token::Dot => push_char(out, '.'),
            Token::Hyphen => push_char(out, '-'),
            Token::NewLine => push_char(out, '\n'),
            Token::LParen => push_char(out, '('),
            Token::RParen => push_char(out, ')'),
            Token::LBracket => push_char(out, '['),
            Token::RBracket => push_char(out, ']'),
        }
    }

    /// The characters that the token stands for.
    pub fn to_string(&self) -> (text: String)
        ensures
            text@ == self@.text(),
    {
        let mut text = String::new();
        self.write_to(&mut text);
        text
    }

    /// The token as a word: a `Word` token with the same characters.
    pub fn to_word(&self) -> (word: Token)
        ensures
            word@ == SpecToken::Word(self@.text()),
    {
        Token::Word(self.to_string())
    }

    /// Whether the token is of the kind of `expected`, whatever the two
    /// carry.
    pub fn expect(&self, expected: &Token) -> (same: bool)
        ensures
            same == self@.same_kind(expected@),
    {
        match (self, expected) {
            (Token::Word(_), Token::Word(_)) => true,
            (Token::Heading(_), Token::Heading(_)) => true,
            (Token::WhiteSpace(_), Token::WhiteSpace(_)) => true,
            (Token::Asterisk(_), Token::Asterisk(_)) => true,
            (Token::Underscore(_), Token::Underscore(_)) => true,
            (Token::Number(_), Token::Number(_)) => true,
            (Token::Dot, Token::Dot) => true,
            (Token::Hyphen, Token::Hyphen) => true,
            (Token::NewLine, Token::NewLine) => true,
            (Token::LParen, Token::LParen) => true,
            (Token::RParen, Token::RParen) => true,
            (Token::LBracket, Token::LBracket) => true,
            (Token::RBracket, Token::RBracket) => true,
            _ => false,
        }
    }

    /// A token equal to this one.
    pub fn duplicate(&self) -> (copy: Token)
        ensures
            copy@ == self@,
    {
        match self {
            Token::Word(word) => Token::Word(word.clone()),
            Token::Heading(count) => Token::Heading(*count),
            Token::WhiteSpace(count) => Token::WhiteSpace(*count),
            Token::Asterisk(count) => Token::Asterisk(*count),
            Token::Underscore(count) => Token::Underscore(*count),
            Token::Number(number) => Token::Number(*number),
            Token::Dot => Token::Dot,
            Token::Hyphen => Token::Hyphen,
            Token::NewLine => Token::NewLine,
            Token::LParen => Token::LParen,
            Token::RParen => Token::RParen,
            Token::LBracket => Token::LBracket,
            Token::RBracket => Token::RBracket,
        }
    }
}

/// The tokenizer. It holds the unit tokens that wait to be merged.
pub struct Lexer {
    tokens: Vec<Token>,
}

impl Lexer {
    #[verifier::type_invariant]
    spec fn units_only(self) -> bool {
        forall|i: int| 0 <= i < self.tokens@.len() ==> (#[trigger] self.tokens@[i])@.is_unit()
    }

    /// The unit tokens that wait to be merged.
    pub closed spec fn pending(self) -> Seq<SpecToken> {
        self.tokens.deep_view()
    }

    /// A tokenizer with no token waiting.
    pub fn new() -> (lexer: Lexer)
        ensures
            lexer.pending() == Seq::<SpecToken>::empty(),
    {
        let lexer = Lexer { tokens: Vec::new() };
        lexer
    }

    /// The token stream of `contents`: every character is classified, and
    /// the unit tokens are merged, those that were waiting first.
    pub fn tokenize(self, contents: String) -> (tokens: Vec<Token>)
        ensures
            tokens.deep_view() == coalesced(self.pending() + unit_tokens(contents@)),
            self.pending().len() == 0 ==> tokens.deep_view() == tokenized(contents@),
            fully_coalesced(tokens.deep_view()),
    {
        proof {
            use_type_invariant(&self);
        }
        let ghost pending = self.pending();
        let mut units = self.tokens;
        for c in it: contents.as_str().chars()
            invariant
                it.seq() == contents@,
                units.deep_view() =~= pending + unit_tokens(contents@.take(it.index() as int)),
                forall|i: int| 0 <= i < units@.len() ==> (#[trigger] units@[i])@.is_unit(),
        {
            let ghost before = units.deep_view();
            units.push(Token::new(c));
            assert(units.deep_view() =~= before.push(unit_token(c)));
        }
        assert(contents@.take(contents@.len() as int) =~= contents@);
        Self::combine(units)
    }

    /// Merges the unit tokens that are waiting.
    pub fn combine_tokens(self) -> (tokens: Vec<Token>)
        ensures
            tokens.deep_view() == coalesced(self.pending()),
            fully_coalesced(tokens.deep_view()),
    {
        proof {
            use_type_invariant(&self);
        }
        Self::combine(self.tokens)
    }

    fn combine(units: Vec<Token>) -> (tokens: Vec<Token>)
        requires
            forall|i: int| 0 <= i < units@.len() ==> (#[trigger] units@[i])@.is_unit(),
        ensures
            tokens.deep_view() == coalesced(units.deep_view()),
            fully_coalesced(tokens.deep_view()),
    {
        let mut tokens: Vec<Token> = Vec::new();
        let mut k: usize = 0;
        while k < units.len()
            invariant
                k <= units.len(),
                forall|i: int| 0 <= i < units@.len() ==> (#[trigger] units@[i])@.is_unit(),
                tokens.deep_view() =~= coalesced(units.deep_view().take(k as int)),
                fully_coalesced(tokens.deep_view()),
                forall|i: int| 0 <= i < tokens@.len() ==> count_of((#[trigger] tokens@[i])@) <= k,
            decreases units.len() - k,
        {
            let ghost before = tokens.deep_view();
            let ghost seen = units.deep_view().take(k as int);
            let unit = &units[k];
            assert(units.deep_view().take(k + 1).drop_last() =~= seen);
            let last = tokens.pop();
            match (last, unit) {
                (Some(Token::Word(mut word)), Token::Word(next)) => {
                    word.append(next.as_str());
                    tokens.push(Token::Word(word));
                },
                (Some(Token::Heading(count)), Token::Heading(next)) => {
                    tokens.push(Token::Heading(count + *next));
                },
                (Some(Token::WhiteSpace(count)), Token::WhiteSpace(next)) => {
                    tokens.push(Token::WhiteSpace(count + *next));
                },
                (Some(Token::Asterisk(count)), Token::Asterisk(next)) => {
                    tokens.push(Token::Asterisk(count + *next));
                },
                (Some(Token::Underscore(count)), Token::Underscore(next)) => {
                    tokens.push(Token::Underscore(count + *next));
                },
                (Some(Token::Number(number)), Token::Number(digit)) => {
                    let joined: usize = if number <= (usize::MAX - *digit) / 10 {
                        number * 10 + *digit
                    } else {
                        usize::MAX
                    };
                    tokens.push(Token::Number(joined));
                },
                (Some(last), unit) => {
                    tokens.push(last);
                    tokens.push(unit.duplicate());
                },
                (None, unit) => {
                    tokens.push(unit.duplicate());
                },
            }
            k += 1;
            assert(tokens.deep_view() =~= coalesce_push(before, unit@));
        }
        assert(units.deep_view().take(units.len() as int) =~= units.deep_view());
        tokens
    }
}

impl Default for Lexer {
    fn default() -> (lexer: Lexer)
        ensures
            lexer.pending() == Seq::<SpecToken>::empty(),
    {
        Lexer::new()
    }
}

} // verus!
