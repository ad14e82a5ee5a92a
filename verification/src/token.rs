//! The token stream: the characters of a text, classified, between a
//! start and an end sentinel.

use vstd::prelude::*;
use vstd::string::*;
use vstd::std_specs::iter::IteratorSpec;
use crate::classify::{char_class, classify, ends_hashtag, is_end_of_hashtag, CharClass};

verus! {

/// One element of the token stream.
#[derive(Clone, Copy, Debug, PartialEq, Eq, Structural)]
pub enum Token {
    /// A character that is neither the marker nor whitespace.
    Char(char),
    /// A whitespace character.
    Whitespace,
    /// The marker `#`.
    Hashtag,
    /// Stands before the first character.
    StartOfString,
    /// Stands after the last character.
    EndOfString,
}

/// The token that stands for the character `c`.
pub open spec fn token_of(c: char) -> Token {
    match char_class(c) {
        CharClass::Marker => Token::Hashtag,
        CharClass::Whitespace => Token::Whitespace,
        _ => Token::Char(c),
    }
}

/// The whole token stream of `text`: a start sentinel, one token for each
/// character in order, an end sentinel.
pub open spec fn tokens(text: Seq<char>) -> Seq<Token> {
    seq![Token::StartOfString] + text.map_values(|c: char| token_of(c)) + seq![Token::EndOfString]
}

/// The token at index `k` of the stream of `text`. The character at
/// position `p` of the text stands at index `p + 1`.
pub open spec fn token_at(text: Seq<char>, k: int) -> Token {
    if k <= 0 {
        Token::StartOfString
    } else if k <= text.len() {
        token_of(text[k - 1])
    } else {
        Token::EndOfString
    }
}

/// The token that follows index `k`, if there is one.
pub open spec fn lookahead(text: Seq<char>, k: int) -> Option<Token> {
    if k + 1 < text.len() + 2 {
        Some(token_at(text, k + 1))
    } else {
        None
    }
}

/// `token_at` reads the stream that `tokens` builds.
pub proof fn lemma_tokens_index(text: Seq<char>, k: int)
    requires
        0 <= k < text.len() + 2,
    ensures
        tokens(text).len() == text.len() + 2,
        tokens(text)[k] == token_at(text, k),
{
}

impl Token {
    /// Whether this token is the marker.
    pub open spec fn is_marker(self) -> bool {
        self == Token::Hashtag
    }

    /// Whether a marker followed by this token opens nothing: whitespace,
    /// the end of the text, or a character that ends a hashtag.
    pub open spec fn ends_hashtag(self) -> bool {
        match self {
            Token::Whitespace => true,
            Token::Char(c) => ends_hashtag(c),
            Token::EndOfString => true,
            Token::Hashtag => false,
            Token::StartOfString => false,
        }
    }

    /// Whether this token is the marker.
    pub fn is_hashtag_token(&self) -> (b: bool)
        ensures
            b == self.is_marker(),
    {
        matches!(self, Token::Hashtag)
    }

    /// Whether a marker followed by this token opens nothing.
    pub fn is_end_of_hashtag(&self) -> (b: bool)
        ensures
            b == self.ends_hashtag(),
    {
        match self {
            Token::Whitespace => true,
            Token::Char(c) => is_end_of_hashtag(*c),
            Token::EndOfString => true,
            Token::Hashtag => false,
            Token::StartOfString => false,
        }
    }
}

/// Whether the token ahead, if any, is the marker.
pub open spec fn next_is_marker(next: Option<Token>) -> bool {
    next == Some(Token::Hashtag)
}

/// Whether the token ahead, if any, ends a hashtag.
pub open spec fn next_ends_hashtag(next: Option<Token>) -> bool {
    match next {
        Some(token) => token.ends_hashtag(),
        None => false,
    }
}

/// Whether the token ahead, if any, is the marker.
pub fn next_is_hashtag_token(next: &Option<Token>) -> (b: bool)
    ensures
        b == next_is_marker(*next),
{
    match next {
        Some(token) => token.is_hashtag_token(),
        None => false,
    }
}

/// Whether the token ahead, if any, ends a hashtag.
pub fn next_is_end_of_hashtag(next: &Option<Token>) -> (b: bool)
    ensures
        b == next_ends_hashtag(*next),
{
    match next {
        Some(token) => token.is_end_of_hashtag(),
        None => false,
    }
}

/// The token for one character.
pub fn token_from_char(c: char) -> (token: Token)
    ensures
        token == token_of(c),
{
    match classify(c) {
        CharClass::Marker => Token::Hashtag,
        CharClass::Whitespace => Token::Whitespace,
        _ => Token::Char(c),
    }
}

/// The characters of `text`, one element each.
fn decode(text: &str) -> (chars: Vec<char>)
    ensures
        chars@ == text@,
{
    broadcast use group_string_axioms;

    let mut rest = text.chars();
    let mut chars: Vec<char> = Vec::new();
    loop
        invariant
            chars@ + rest.remaining() == text@,
            rest.obeys_prophetic_iter_laws(),
            rest.decrease() is Some,
        ensures
            chars@ == text@,
        decreases rest.decrease()->0,
    {
        match rest.next() {
            Some(c) => {
                chars.push(c);
            },
            None => {
                assert(chars@ + Seq::<char>::empty() =~= chars@);
                break ;
            },
        }
    }
    chars
}

/// A forward-only cursor over the token stream of a text, with one token
/// of lookahead.
///
/// Positions count characters. A text of single-byte characters is read in
/// place; any other text is decoded once, when the cursor is made.
#[derive(Debug)]
pub struct TokenIter<'a> {
    text: &'a str,
    ascii: bool,
    decoded: Vec<char>,
    len: usize,
    started: bool,
    pos: usize,
    finished: bool,
}

impl<'a> TokenIter<'a> {
    /// The cursor's fields agree with its text.
    pub closed spec fn wf(&self) -> bool {
        &&& self.ascii == is_ascii(self.text)
        &&& self.len == self.text@.len()
        &&& !self.ascii ==> self.decoded@ == self.text@
        &&& self.pos <= self.len
        &&& !self.started ==> self.pos == 0 && !self.finished
        &&& self.finished ==> self.started && self.pos == self.len
    }

    /// The text that is being read.
    pub closed spec fn text(&self) -> Seq<char> {
        self.text@
    }

    /// How many tokens have been taken.
    pub closed spec fn consumed(&self) -> nat {
        if !self.started {
            0
        } else if self.finished {
            self.len as nat + 2
        } else {
            self.pos as nat + 1
        }
    }

    /// The tokens that are still to come.
    pub open spec fn remaining(&self) -> Seq<Token> {
        tokens(self.text()).skip(self.consumed() as int)
    }

    /// The character position of the token that comes next: the number
    /// of characters taken so far. The end sentinel stands at the text's
    /// length.
    pub open spec fn upcoming(&self) -> int {
        if self.consumed() == 0 {
            0
        } else if self.consumed() <= self.text().len() {
            self.consumed() - 1
        } else {
            self.text().len() as int
        }
    }

    /// The token at index `k`, if the stream is that long.
    pub open spec fn token_if_any(text: Seq<char>, k: int) -> Option<Token> {
        if k < text.len() + 2 {
            Some(token_at(text, k))
        } else {
            None
        }
    }

    /// A well-formed cursor never runs past the end sentinel, and the
    /// text's length fits a machine word.
    pub proof fn lemma_bounds(&self)
        requires
            self.wf(),
        ensures
            self.consumed() <= self.text().len() + 2,
            self.text().len() <= usize::MAX,
    {
    }

    fn char_at(&self, i: usize) -> (c: char)
        requires
            self.wf(),
            i < self.text@.len(),
        ensures
            c == self.text@[i as int],
    {
        if self.ascii {
            let byte = self.text.get_ascii(i);
            byte as char
        } else {
            self.decoded[i]
        }
    }

    /// Takes the next token, or returns `None` once the end sentinel has
    /// been taken.
    pub fn next(&mut self) -> (token: Option<Token>)
        requires
            old(self).wf(),
        ensures
            final(self).wf(),
            final(self).text() == old(self).text(),
            token == Self::token_if_any(old(self).text(), old(self).consumed() as int),
            final(self).consumed() == if token is Some {
                old(self).consumed() + 1
            } else {
                old(self).consumed()
            },
    {
        if !self.started {
            self.started = true;
            Some(Token::StartOfString)
        } else if self.finished {
            None
        } else if self.pos < self.len {
            let c = self.char_at(self.pos);
            self.pos = self.pos + 1;
            Some(token_from_char(c))
        } else {
            self.finished = true;
            Some(Token::EndOfString)
        }
    }

    /// The token that `next` would return, without taking it.
    pub fn peek(&self) -> (token: Option<Token>)
        requires
            self.wf(),
        ensures
            token == Self::token_if_any(self.text(), self.consumed() as int),
    {
        if !self.started {
            Some(Token::StartOfString)
        } else if self.finished {
            None
        } else if self.pos < self.len {
            Some(token_from_char(self.char_at(self.pos)))
        } else {
            Some(Token::EndOfString)
        }
    }

    /// The character position of the token that `next` would return.
    pub fn position(&self) -> (p: usize)
        requires
            self.wf(),
        ensures
            p == self.upcoming(),
    {
        self.pos
    }

    /// Whether every character of the text takes a single byte.
    pub fn is_ascii(&self) -> (b: bool)
        requires
            self.wf(),
        ensures
            b == vstd::utf8::is_ascii_chars(self.text()),
    {
        self.ascii
    }

    /// Takes all the tokens that are left.
    pub fn collect(self) -> (all: Vec<Token>)
        requires
            self.wf(),
        ensures
            all@ == self.remaining(),
    {
        let mut cursor = self;
        let mut all: Vec<Token> = Vec::new();
        let ghost text = self.text();
        let ghost first = self.consumed() as int;
        proof {
            self.lemma_bounds();
            lemma_tokens_index(text, 0);
            assert(all@ =~= tokens(text).subrange(first, first));
        }
        loop
            invariant
                cursor.wf(),
                tokens(text).len() == text.len() + 2,
                cursor.text() == text,
                0 <= first <= cursor.consumed() <= text.len() + 2,
                all@ == tokens(text).subrange(first, cursor.consumed() as int),
            ensures
                all@ == tokens(text).skip(first),
            decreases text.len() + 2 - cursor.consumed(),
        {
            let ghost k = cursor.consumed() as int;
            match cursor.next() {
                Some(token) => {
                    all.push(token);
                    proof {
                        lemma_tokens_index(text, k);
                        assert(all@ =~= tokens(text).subrange(first, k + 1));
                    }
                },
                None => {
                    assert(all@ =~= tokens(text).skip(first));
                    break ;
                },
            }
        }
        all
    }
}

/// A cursor at the start of the token stream of `text`.
pub fn tokenize<'a>(text: &'a str) -> (cursor: TokenIter<'a>)
    ensures
        cursor.wf(),
        cursor.text() == text@,
        cursor.consumed() == 0,
        cursor.remaining() == tokens(text@),
{
    broadcast use is_ascii_spec_bytes;

    let ascii = text.is_ascii();
    let decoded = if ascii {
        Vec::new()
    } else {
        decode(text)
    };
    let len = if ascii {
        text.as_bytes().len()
    } else {
        decoded.len()
    };
    assert(tokens(text@).skip(0) =~= tokens(text@));
    TokenIter { text, ascii, decoded, len, started: false, pos: 0, finished: false }
}

} // verus!
