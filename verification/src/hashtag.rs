//! The hashtag that the scanner hands out, and its mathematical model.

use vstd::prelude::*;
use vstd::string::*;
use std::borrow::Cow;

verus! {

/// The model of a hashtag: its text without the marker, and the character
/// positions of the marker and of the last character, both inclusive.
pub struct Span {
    pub text: Seq<char>,
    pub start: int,
    pub end: int,
}

/// A hashtag found in some text.
#[derive(Eq, PartialEq, Debug)]
pub struct Hashtag<'a> {
    /// The text of the hashtag, without the `#`. A slice of the scanned
    /// text where that text has single-byte characters only, an owned copy
    /// otherwise.
    pub text: Cow<'a, str>,
    /// The position of the `#`, counted in characters.
    pub start: usize,
    /// The position of the last character, counted in characters.
    pub end: usize,
}

impl<'a> View for Hashtag<'a> {
    type V = Span;

    open spec fn view(&self) -> Span {
        Span { text: self.text@, start: self.start as int, end: self.end as int }
    }
}

impl<'a> Clone for Hashtag<'a> {
    /// A hashtag with the same text and positions. A borrowed text stays
    /// borrowed.
    fn clone(&self) -> (copy: Self)
        ensures
            copy@ == self@,
            copy.is_borrowed() == self.is_borrowed(),
    {
        let text = match &self.text {
            Cow::Borrowed(slice) => Cow::Borrowed(*slice),
            Cow::Owned(owned) => Cow::Owned(owned.clone()),
        };
        Hashtag { text, start: self.start, end: self.end }
    }
}

/// The model of a hashtag that may be absent.
pub open spec fn model(found: Option<Hashtag<'_>>) -> Option<Span> {
    match found {
        Some(h) => Some(h@),
        None => None,
    }
}

/// The models of a sequence of hashtags, in order.
pub open spec fn spans(found: Seq<Hashtag<'_>>) -> Seq<Span> {
    found.map_values(|h: Hashtag<'_>| h@)
}

impl<'a> Hashtag<'a> {
    /// Whether the text is a slice of the scanned text, not a copy.
    pub open spec fn is_borrowed(&self) -> bool {
        self.text matches Cow::Borrowed(_)
    }

    /// The hashtag's text, without the `#`.
    pub fn as_ref(&self) -> (text: &str)
        ensures
            text@ == self@.text,
    {
        match &self.text {
            Cow::Borrowed(slice) => slice,
            Cow::Owned(owned) => owned.as_str(),
        }
    }

    /// The hashtag as it stood in the text: `#`, then its text.
    pub fn to_string(&self) -> (shown: String)
        ensures
            shown@ == seq!['#'] + self@.text,
    {
        let mut shown = String::from_str("#");
        proof {
            reveal_strlit("#");
            assert(shown@ =~= seq!['#']);
        }
        shown.append(self.as_ref());
        shown
    }
}

} // verus!
