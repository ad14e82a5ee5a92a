//! The scanner: pulls hashtags out of a text one at a time, or all at
//! once.

use vstd::prelude::*;
use vstd::string::*;
use vstd::utf8::is_ascii_chars;
use crate::hashtag::{spans, Hashtag};
use crate::machine::{found_after, hashtags, lemma_found_prefix, state_after, ParsingState};
use crate::token::{tokenize, TokenIter};

verus! {

/// A parser that finds the hashtags of a text, one per call of `next`.
#[derive(Debug)]
pub struct HashtagParser<'a> {
    whole_string: &'a str,
    tokens: TokenIter<'a>,
    state: ParsingState,
}

impl<'a> HashtagParser<'a> {
    /// The parser is in the middle of a scan of its text: its state is
    /// the state of the machine after the tokens taken so far.
    pub closed spec fn wf(&self) -> bool {
        &&& self.tokens.wf()
        &&& self.tokens.text() == self.whole_string@
        &&& self.state@ == state_after(self.whole_string@, self.tokens.consumed())
        &&& self.state.fits(
            self.whole_string@,
            !is_ascii(self.whole_string),
            self.tokens.upcoming(),
        )
    }

    /// The text that is being scanned.
    pub closed spec fn text(&self) -> Seq<char> {
        self.whole_string@
    }

    /// How many hashtags the parser has handed out.
    pub closed spec fn yielded(&self) -> nat {
        found_after(self.whole_string@, self.tokens.consumed()).len()
    }

    /// Create a new `HashtagParser` that will parse the given string.
    pub fn new(text: &'a str) -> (parser: Self)
        ensures
            parser.wf(),
            parser.text() == text@,
            parser.yielded() == 0,
    {
        HashtagParser { whole_string: text, tokens: tokenize(text), state: ParsingState::new() }
    }

    /// The next hashtag of the text, or `None` when there is none left.
    ///
    /// The calls hand out the hashtags of the text in order, each once;
    /// after the last, every call returns `None`.
    pub fn next(&mut self) -> (found: Option<Hashtag<'a>>)
        requires
            old(self).wf(),
        ensures
            final(self).wf(),
            final(self).text() == old(self).text(),
            match found {
                Some(h) => {
                    &&& old(self).yielded() < hashtags(old(self).text()).len()
                    &&& h@ == hashtags(old(self).text())[old(self).yielded() as int]
                    &&& h.is_borrowed() == is_ascii_chars(old(self).text())
                    &&& final(self).yielded() == old(self).yielded() + 1
                },
                None => {
                    &&& old(self).yielded() == hashtags(old(self).text()).len()
                    &&& final(self).yielded() == old(self).yielded()
                },
            },
    {
        loop
            invariant
                self.wf(),
                self.text() == old(self).text(),
                self.yielded() == old(self).yielded(),
            decreases self.text().len() + 2 - self.tokens.consumed(),
        {
            let ghost scanned = self.whole_string@;
            let ghost k = self.tokens.consumed();
            proof {
                self.tokens.lemma_bounds();
            }
            let index = self.tokens.position();
            match self.tokens.next() {
                None => {
                    return None;
                },
                Some(token) => {
                    let next = self.tokens.peek();
                    let buffered = !self.tokens.is_ascii();
                    let mut state = ParsingState::Idle;
                    core::mem::swap(&mut self.state, &mut state);
                    let text = self.whole_string;
                    let (state, found) = state.step(token, index, next, text, buffered);
                    self.state = state;
                    if let Some(h) = found {
                        proof {
                            let now = found_after(scanned, k + 1);
                            assert(now == found_after(scanned, k).push(h@));
                            lemma_found_prefix(scanned, k + 1, scanned.len() + 2);
                            let last = now.len() - 1;
                            assert(hashtags(scanned).subrange(0, now.len() as int)[last]
                                == hashtags(scanned)[last]);
                        }
                        return Some(h);
                    }
                },
            }
        }
    }
}

impl<'a> Hashtag<'a> {
    /// All the hashtags of `text`, in the order in which they stand in it.
    pub fn parse(text: &'a str) -> (found: Vec<Hashtag<'a>>)
        ensures
            spans(found@) == hashtags(text@),
            forall|i: int|
                0 <= i < found@.len() ==> (#[trigger] found@[i]).is_borrowed() == is_ascii_chars(
                    text@,
                ),
    {
        let mut parser = HashtagParser::new(text);
        let mut found: Vec<Hashtag<'a>> = Vec::new();
        loop
            invariant
                parser.wf(),
                parser.text() == text@,
                parser.yielded() == found@.len(),
                found@.len() <= hashtags(text@).len(),
                spans(found@) == hashtags(text@).subrange(0, found@.len() as int),
                forall|i: int|
                    0 <= i < found@.len() ==> (#[trigger] found@[i]).is_borrowed()
                        == is_ascii_chars(text@),
            ensures
                spans(found@) == hashtags(text@),
                forall|i: int|
                    0 <= i < found@.len() ==> (#[trigger] found@[i]).is_borrowed()
                        == is_ascii_chars(text@),
            decreases hashtags(text@).len() - parser.yielded(),
        {
            match parser.next() {
                Some(h) => {
                    let ghost before = found@;
                    found.push(h);
                    assert(spans(found@) =~= hashtags(text@).subrange(0, found@.len() as int)) by {
                        assert forall|i: int| 0 <= i < found@.len() implies spans(found@)[i]
                            == hashtags(text@)[i] by {
                            if i < before.len() {
                                assert(spans(before)[i] == hashtags(text@)[i]);
                            }
                        }
                    }
                },
                None => {
                    assert(spans(found@) =~= hashtags(text@));
                    break ;
                },
            }
        }
        found
    }
}

} // verus!
