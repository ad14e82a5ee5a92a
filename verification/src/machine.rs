//! The parsing state machine: what each token does to a hashtag that is
//! being read, and which hashtags a text holds.
//!
//! The spec functions here are the definition of the scanner. The
//! executable state carries, beside the model, the buffer that collects a
//! hashtag's text when the scanned text cannot be sliced by position.

use vstd::prelude::*;
use vstd::string::*;
use std::borrow::Cow;
use crate::classify::{char_class, ends_hashtag, is_end_of_hashtag, CharClass};
use crate::hashtag::{model, Hashtag, Span};
use crate::token::{
    lookahead, next_ends_hashtag, next_is_end_of_hashtag, next_is_hashtag_token, next_is_marker,
    token_at, token_of, Token,
};

verus! {

/// The model of the parsing state.
pub enum Scan {
    /// No hashtag is being read.
    Idle,
    /// A hashtag is being read. `start` is the position of its marker;
    /// `consumed_any` says whether a character has been taken into it.
    Accumulating { start: int, consumed_any: bool },
}

/// What closing the candidate of `state` at position `end` gives: a
/// hashtag if a character was taken into it, nothing otherwise. Its text
/// is what stands in `text` after the marker, up to and including `end`.
pub open spec fn close(text: Seq<char>, state: Scan, end: int) -> Option<Span> {
    match state {
        Scan::Idle => None,
        Scan::Accumulating { start, consumed_any } => if consumed_any {
            Some(Span { text: text.subrange(start + 1, end + 1), start, end })
        } else {
            None
        },
    }
}

/// A fresh candidate whose marker stands at `at` if the token ahead is
/// the marker; `otherwise` if it is not.
pub open spec fn arm(next: Option<Token>, at: int, otherwise: Scan) -> Scan {
    if next_is_marker(next) {
        Scan::Accumulating { start: at, consumed_any: false }
    } else {
        otherwise
    }
}

/// One transition: the state after the token at index `k` of the stream
/// of `text`, and the hashtag that this token confirms, if any.
///
/// - The start sentinel arms a candidate if the marker follows.
/// - A marker met while reading drops the candidate if what follows ends
///   a hashtag, and otherwise restarts it at its own position: of several
///   markers in a row the last is the start of the hashtag. A marker met
///   while idle does nothing: only the token before a marker arms, so a
///   marker in the middle of a word opens nothing.
/// - Whitespace closes the candidate before it, and arms a new one if the
///   marker follows.
/// - A character met while reading closes the candidate before it if it
///   ends a hashtag, and is taken into the candidate if it does not. If
///   the marker follows, the candidate is closed at this character and a
///   new one armed. A character met while idle does nothing.
/// - The end sentinel closes the candidate before it.
pub open spec fn scan_step(text: Seq<char>, state: Scan, k: int) -> (Scan, Option<Span>) {
    let p = k - 1;
    let next = lookahead(text, k);
    match token_at(text, k) {
        Token::StartOfString => (arm(next, 0, state), None),
        Token::Hashtag => match state {
            Scan::Idle => (Scan::Idle, None),
            Scan::Accumulating { .. } => if next_ends_hashtag(next) {
                (Scan::Idle, None)
            } else {
                (Scan::Accumulating { start: p, consumed_any: false }, None)
            },
        },
        Token::Whitespace => (arm(next, p + 1, Scan::Idle), close(text, state, p - 1)),
        Token::Char(c) => match state {
            Scan::Idle => (Scan::Idle, None),
            Scan::Accumulating { start, consumed_any } => if ends_hashtag(c) {
                (arm(next, p + 1, Scan::Idle), close(text, state, p - 1))
            } else {
                let grown = Scan::Accumulating { start, consumed_any: true };
                if next_is_marker(next) {
                    (
                        Scan::Accumulating { start: p + 1, consumed_any: false },
                        close(text, grown, p),
                    )
                } else {
                    (grown, None)
                }
            },
        },
        Token::EndOfString => (Scan::Idle, close(text, state, p - 1)),
    }
}

/// The state after the first `k` tokens of `text`.
pub open spec fn state_after(text: Seq<char>, k: nat) -> Scan
    decreases k,
{
    if k == 0 {
        Scan::Idle
    } else {
        scan_step(text, state_after(text, (k - 1) as nat), k - 1).0
    }
}

/// The hashtags that the first `k` tokens of `text` confirm, in order.
pub open spec fn found_after(text: Seq<char>, k: nat) -> Seq<Span>
    decreases k,
{
    if k == 0 {
        Seq::empty()
    } else {
        let before = found_after(text, (k - 1) as nat);
        match scan_step(text, state_after(text, (k - 1) as nat), k - 1).1 {
            Some(span) => before.push(span),
            None => before,
        }
    }
}

/// The hashtags of `text`, in the order in which they stand in it.
pub open spec fn hashtags(text: Seq<char>) -> Seq<Span> {
    found_after(text, text.len() + 2)
}

/// What the first `k` tokens confirm is the beginning of what the first
/// `m` tokens confirm, for `k <= m`: a hashtag, once found, stays.
pub proof fn lemma_found_prefix(text: Seq<char>, k: nat, m: nat)
    requires
        k <= m,
    ensures
        found_after(text, k).len() <= found_after(text, m).len(),
        found_after(text, k) == found_after(text, m).subrange(
            0,
            found_after(text, k).len() as int,
        ),
    decreases m,
{
    if k < m {
        lemma_found_prefix(text, k, (m - 1) as nat);
    }
    assert(found_after(text, k) =~= found_after(text, m).subrange(
        0,
        found_after(text, k).len() as int,
    ));
}

/// `span` is a hashtag that stands in `text`: a marker at `start`, after
/// it ordinary characters up to and including `end`, at least one, and
/// after `end` the end of the text or a character that is not ordinary.
/// Its text is that run of characters.
pub open spec fn stands_in(text: Seq<char>, span: Span) -> bool {
    &&& 0 <= span.start < span.end < text.len()
    &&& char_class(text[span.start]) == CharClass::Marker
    &&& forall|j: int|
        span.start < j <= span.end ==> char_class(#[trigger] text[j]) == CharClass::Ordinary
    &&& span.end + 1 < text.len() ==> char_class(text[span.end + 1]) != CharClass::Ordinary
    &&& span.text == text.subrange(span.start + 1, span.end + 1)
}

/// The state is one that a scan of `text` can be in before the token at
/// character position `at`: the candidate's marker stands in the text at
/// or before `at`, what lies between the marker and `at` is ordinary and
/// has been taken, and a candidate that has taken a character does not
/// stand before a marker.
pub open spec fn reads(text: Seq<char>, state: Scan, at: int) -> bool {
    match state {
        Scan::Idle => true,
        Scan::Accumulating { start, consumed_any } => {
            &&& 0 <= start < text.len()
            &&& char_class(text[start]) == CharClass::Marker
            &&& start <= at <= text.len()
            &&& consumed_any ==> start + 1 < at
            &&& !consumed_any ==> at <= start + 1
            &&& consumed_any && at < text.len() ==> char_class(text[at]) != CharClass::Marker
            &&& forall|j: int|
                start < j < at ==> char_class(#[trigger] text[j]) == CharClass::Ordinary
        },
    }
}

/// The position before which every hashtag found so far has ended: the
/// marker of the candidate, or the position of the next token.
pub open spec fn frontier(state: Scan, at: int) -> int {
    match state {
        Scan::Idle => at,
        Scan::Accumulating { start, .. } => start,
    }
}

/// The character position of the token at index `k`.
pub open spec fn position_of(k: int) -> int {
    if k <= 0 {
        0
    } else {
        k - 1
    }
}

/// One transition keeps the state readable, moves the frontier forward
/// only, and confirms only a hashtag that stands in the text between the
/// old frontier and the new.
pub proof fn lemma_step(text: Seq<char>, state: Scan, k: int)
    requires
        0 <= k < text.len() + 2,
        reads(text, state, position_of(k)),
    ensures
        reads(text, scan_step(text, state, k).0, k),
        frontier(state, position_of(k)) <= frontier(scan_step(text, state, k).0, k),
        scan_step(text, state, k).1 matches Some(span) ==> {
            &&& stands_in(text, span)
            &&& frontier(state, position_of(k)) <= span.start
            &&& span.end < frontier(scan_step(text, state, k).0, k)
        },
{
    let p = k - 1;
    let next = lookahead(text, k);
    if next == Some(Token::Hashtag) {
        assert(k + 1 <= text.len());
        assert(token_of(text[k]) == Token::Hashtag);
        assert(char_class(text[k]) == CharClass::Marker);
    }
    if 1 <= k <= text.len() {
        assert(token_at(text, k) == token_of(text[p]));
    }
}

/// The index in the token stream of a token that stands at character
/// position `index`.
pub open spec fn token_index(token: Token, index: int) -> int {
    if token == Token::StartOfString {
        0
    } else {
        index + 1
    }
}

/// `String::push` of the standard library, which vstd leaves without a
/// contract. Trusted, from its documentation: the string afterwards is the
/// string before with `c` appended, and nothing else.
pub assume_specification[ String::push ](buffer: &mut String, c: char)
    ensures
        final(buffer)@ == old(buffer)@.push(c),
;

/// The parsing state. It is handed from token to token by value, so that
/// nothing of a closed candidate is left in the next.
#[derive(Debug)]
pub enum ParsingState {
    /// No hashtag is being read.
    Idle,
    /// A hashtag is being read.
    Accumulating {
        /// The position of the marker.
        start: usize,
        /// The characters taken so far, where the text cannot be sliced.
        buffer: String,
        /// Whether a character has been taken.
        consumed_any: bool,
    },
}

impl View for ParsingState {
    type V = Scan;

    open spec fn view(&self) -> Scan {
        match self {
            ParsingState::Idle => Scan::Idle,
            ParsingState::Accumulating { start, buffer, consumed_any } => Scan::Accumulating {
                start: *start as int,
                consumed_any: *consumed_any,
            },
        }
    }
}

impl ParsingState {
    /// The state belongs to a scan of `text` whose next token stands at
    /// character position `at`: its model is one that such a scan can be
    /// in, and where the scan is `buffered` the buffer holds what has been
    /// taken into the candidate.
    pub open spec fn fits(&self, text: Seq<char>, buffered: bool, at: int) -> bool {
        &&& reads(text, self@, at)
        &&& match self {
            ParsingState::Idle => true,
            ParsingState::Accumulating { start, buffer, consumed_any } => buffered ==> buffer@
                == if *consumed_any {
                text.subrange(*start + 1, at)
            } else {
                Seq::<char>::empty()
            },
        }
    }

    /// The candidate, if it has taken a character, can be closed at
    /// `end`: it ends inside the text there, and where the scan is
    /// `buffered` the buffer holds what stands between its marker and
    /// `end`, `end` included.
    pub open spec fn can_close(&self, text: Seq<char>, buffered: bool, end: int) -> bool {
        match self {
            ParsingState::Idle => true,
            ParsingState::Accumulating { start, buffer, consumed_any } => *consumed_any ==> {
                &&& *start < end < text.len()
                &&& buffered ==> buffer@ == text.subrange(*start + 1, end + 1)
            },
        }
    }

    /// The initial state.
    pub fn new() -> (state: ParsingState)
        ensures
            state@ == Scan::Idle,
    {
        ParsingState::Idle
    }

    /// Whether a hashtag is being read.
    pub fn parsing_hashtag(&self) -> (b: bool)
        ensures
            b == (self@ is Accumulating),
    {
        match self {
            ParsingState::Idle => false,
            ParsingState::Accumulating { .. } => true,
        }
    }

    /// The state after every close.
    pub fn reset_parsing_state() -> (state: ParsingState)
        ensures
            state@ == Scan::Idle,
    {
        ParsingState::Idle
    }

    /// A fresh candidate whose marker stands at `at`.
    pub fn hashtag_incoming(at: usize) -> (state: ParsingState)
        ensures
            state@ == (Scan::Accumulating { start: at as int, consumed_any: false }),
            state matches ParsingState::Accumulating { buffer, .. } && buffer@ == Seq::<
                char,
            >::empty(),
    {
        ParsingState::Accumulating { start: at, buffer: String::new(), consumed_any: false }
    }

    /// The candidate restarted at the marker at `idx`.
    pub fn hashtag_token_seen_at(self, idx: usize) -> (state: ParsingState)
        ensures
            state@ == (Scan::Accumulating { start: idx as int, consumed_any: false }),
            state matches ParsingState::Accumulating { buffer, .. } && buffer@ == Seq::<
                char,
            >::empty(),
    {
        Self::hashtag_incoming(idx)
    }

    /// Takes `c` into the candidate. The buffer grows only where the scan
    /// is `buffered`.
    pub fn consume_char(self, c: char, buffered: bool) -> (state: ParsingState)
        requires
            self@ is Accumulating,
        ensures
            state@ == (Scan::Accumulating { start: self@->start, consumed_any: true }),
            state matches ParsingState::Accumulating { buffer, .. } && buffer@ == if buffered {
                self->buffer@.push(c)
            } else {
                self->buffer@
            },
    {
        match self {
            ParsingState::Idle => ParsingState::Idle,
            ParsingState::Accumulating { start, buffer, consumed_any } => {
                let mut buffer = buffer;
                if buffered {
                    buffer.push(c);
                }
                ParsingState::Accumulating { start, buffer, consumed_any: true }
            },
        }
    }

    /// Closes the candidate at `idx`: the hashtag that it has become, if a
    /// character was taken into it. Its text is a slice of `text` where
    /// the scan is not buffered, and the buffer where it is. A candidate
    /// that has taken a character must end inside the text at `idx`, and
    /// its buffer must hold what stands there (`can_close`).
    pub fn hashtag_finishes_at<'a>(self, idx: usize, text: &'a str, buffered: bool) -> (found:
        Option<Hashtag<'a>>)
        requires
            text@.len() <= usize::MAX,
            buffered == !is_ascii(text),
            self.can_close(text@, buffered, idx as int),
        ensures
            model(found) == close(text@, self@, idx as int),
            found matches Some(h) ==> h.is_borrowed() == !buffered,
    {
        match self {
            ParsingState::Idle => None,
            ParsingState::Accumulating { start, buffer, consumed_any } => {
                if consumed_any {
                    let text = if buffered {
                        Cow::Owned(buffer)
                    } else {
                        Cow::Borrowed(text.substring_ascii(start + 1, idx + 1))
                    };
                    Some(Hashtag { text, start, end: idx })
                } else {
                    None
                }
            },
        }
    }

    /// Closes the candidate, if there is one, before the token at
    /// `index`, and arms a new one if the marker follows.
    fn finish_before<'a>(
        self,
        index: usize,
        next: &Option<Token>,
        text: &'a str,
        buffered: bool,
    ) -> (result: (ParsingState, Option<Hashtag<'a>>))
        requires
            text@.len() <= usize::MAX,
            buffered == !is_ascii(text),
            self.fits(text@, buffered, index as int),
            self@ is Accumulating ==> self@->start < index,
            next_is_marker(*next) ==> index + 1 < text@.len() && char_class(
                text@[index + 1],
            ) == CharClass::Marker,
        ensures
            result.0@ == arm(*next, index + 1, Scan::Idle),
            model(result.1) == close(text@, self@, index - 1),
            result.1 matches Some(h) ==> h.is_borrowed() == !buffered,
            result.0.fits(text@, buffered, index + 1),
    {
        let found = if self.parsing_hashtag() {
            self.hashtag_finishes_at(index - 1, text, buffered)
        } else {
            None
        };
        let state = if next_is_hashtag_token(next) {
            Self::hashtag_incoming(index + 1)
        } else {
            Self::reset_parsing_state()
        };
        (state, found)
    }

    /// One transition of the scan of `text`: the state after `token`,
    /// which stands at character position `index` and is followed by
    /// `next`, and the hashtag that the token confirms, if any.
    pub fn step<'a>(
        self,
        token: Token,
        index: usize,
        next: Option<Token>,
        text: &'a str,
        buffered: bool,
    ) -> (result: (ParsingState, Option<Hashtag<'a>>))
        requires
            text@.len() <= usize::MAX,
            buffered == !is_ascii(text),
            token == Token::StartOfString ==> index == 0,
            token_index(token, index as int) < text@.len() + 2,
            token == token_at(text@, token_index(token, index as int)),
            next == lookahead(text@, token_index(token, index as int)),
            self.fits(text@, buffered, index as int),
        ensures
            result.0@ == scan_step(text@, self@, token_index(token, index as int)).0,
            model(result.1) == scan_step(text@, self@, token_index(token, index as int)).1,
            result.1 matches Some(h) ==> h.is_borrowed() == !buffered,
            result.0.fits(text@, buffered, token_index(token, index as int)),
    {
        match token {
            Token::StartOfString => {
                if next_is_hashtag_token(&next) {
                    (Self::hashtag_incoming(0), None)
                } else {
                    (self, None)
                }
            },
            Token::Hashtag => {
                if self.parsing_hashtag() {
                    if next_is_end_of_hashtag(&next) {
                        (Self::reset_parsing_state(), None)
                    } else {
                        (self.hashtag_token_seen_at(index), None)
                    }
                } else {
                    (self, None)
                }
            },
            Token::Whitespace => self.finish_before(index, &next, text, buffered),
            Token::Char(c) => {
                if self.parsing_hashtag() {
                    if is_end_of_hashtag(c) {
                        self.finish_before(index, &next, text, buffered)
                    } else {
                        let ghost start = self@->start;
                        let grown = self.consume_char(c, buffered);
                        proof {
                            if buffered {
                                assert(grown->buffer@ =~= text@.subrange(start + 1, index + 1));
                            }
                        }
                        if next_is_hashtag_token(&next) {
                            let found = grown.hashtag_finishes_at(index, text, buffered);
                            (Self::hashtag_incoming(index + 1), found)
                        } else {
                            (grown, None)
                        }
                    }
                } else {
                    (self, None)
                }
            },
            Token::EndOfString => {
                let found = if self.parsing_hashtag() {
                    self.hashtag_finishes_at(index - 1, text, buffered)
                } else {
                    None
                };
                (Self::reset_parsing_state(), found)
            },
        }
    }
}

} // verus!
