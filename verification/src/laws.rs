//! What holds of the hashtags of every text.

use vstd::prelude::*;
use crate::classify::{char_class, CharClass};
use crate::hashtag::{spans, Hashtag};
use crate::machine::{
    found_after, frontier, hashtags, lemma_found_prefix, lemma_step, position_of, reads,
    scan_step, stands_in, state_after, Scan,
};
use crate::token::{token_at, token_of, Token};

verus! {

/// What holds after the first `k` tokens of `text`: the state is
/// readable, every hashtag found stands in the text before the frontier,
/// and each ends before the next begins.
pub open spec fn scanned(text: Seq<char>, k: nat) -> bool {
    let state = state_after(text, k);
    let found = found_after(text, k);
    &&& reads(text, state, position_of(k as int))
    &&& forall|i: int|
        0 <= i < found.len() ==> stands_in(text, #[trigger] found[i]) && found[i].end < frontier(
            state,
            position_of(k as int),
        )
    &&& forall|i: int, j: int|
        0 <= i < j < found.len() ==> (#[trigger] found[i]).end < (#[trigger] found[j]).start
}

/// `scanned` holds at every point of a scan.
pub proof fn lemma_scanned(text: Seq<char>, k: nat)
    requires
        k <= text.len() + 2,
    ensures
        scanned(text, k),
    decreases k,
{
    if k > 0 {
        let before = (k - 1) as nat;
        lemma_scanned(text, before);
        lemma_step(text, state_after(text, before), before as int);
        let earlier = found_after(text, before);
        let found = found_after(text, k);
        let old_frontier = frontier(state_after(text, before), position_of(before as int));
        let new_frontier = frontier(state_after(text, k), position_of(k as int));
        assert(position_of(k as int) == before);
        assert forall|i: int| 0 <= i < found.len() implies stands_in(text, #[trigger] found[i])
            && found[i].end < new_frontier by {
            if i < earlier.len() {
                assert(found[i] == earlier[i]);
            }
        }
        assert forall|i: int, j: int| 0 <= i < j < found.len() implies (#[trigger] found[i]).end
            < (#[trigger] found[j]).start by {
            assert(found[i] == earlier[i]);
            if j < earlier.len() {
                assert(found[j] == earlier[j]);
            } else {
                assert(earlier[i].end < old_frontier);
            }
        }
    }
}

/// Every hashtag of a text is a marker followed by a run of ordinary
/// characters that cannot be extended: the character after the run, if
/// there is one, is not ordinary. Its text is that run.
pub proof fn law_hashtags_stand_in_text(text: Seq<char>)
    ensures
        forall|i: int|
            0 <= i < hashtags(text).len() ==> stands_in(text, #[trigger] hashtags(text)[i]),
{
    lemma_scanned(text, text.len() + 2);
}

/// The spans of the hashtags of a text lie inside the text, hold at
/// least one character after the marker, do not overlap, and come in
/// strictly increasing order of their start.
pub proof fn law_spans_ordered_and_bounded(text: Seq<char>)
    ensures
        forall|i: int|
            0 <= i < hashtags(text).len() ==> {
                let span = #[trigger] hashtags(text)[i];
                &&& 0 <= span.start <= span.end < text.len()
                &&& span.text.len() > 0
            },
        forall|i: int, j: int|
            0 <= i < j < hashtags(text).len() ==> {
                &&& (#[trigger] hashtags(text)[i]).end < (#[trigger] hashtags(text)[j]).start
                &&& hashtags(text)[i].start < hashtags(text)[j].start
            },
{
    lemma_scanned(text, text.len() + 2);
    assert forall|i: int| 0 <= i < hashtags(text).len() implies {
        let span = #[trigger] hashtags(text)[i];
        &&& 0 <= span.start <= span.end < text.len()
        &&& span.text.len() > 0
    } by {
        assert(stands_in(text, hashtags(text)[i]));
    }
    assert forall|i: int, j: int| 0 <= i < j < hashtags(text).len() implies {
        &&& (#[trigger] hashtags(text)[i]).end < (#[trigger] hashtags(text)[j]).start
        &&& hashtags(text)[i].start < hashtags(text)[j].start
    } by {
        assert(stands_in(text, hashtags(text)[i]));
    }
}

/// The text of a hashtag is what stands in the scanned text after its
/// marker, up to and including its end: character for character, whether
/// it was sliced out of the text or collected in the buffer.
pub proof fn law_text_is_slice(text: Seq<char>)
    ensures
        forall|i: int|
            0 <= i < hashtags(text).len() ==> {
                let span = #[trigger] hashtags(text)[i];
                &&& span.text == text.subrange(span.start + 1, span.end + 1)
                &&& span.text.len() == span.end - span.start
            },
{
    lemma_scanned(text, text.len() + 2);
    assert forall|i: int| 0 <= i < hashtags(text).len() implies {
        let span = #[trigger] hashtags(text)[i];
        &&& span.text == text.subrange(span.start + 1, span.end + 1)
        &&& span.text.len() == span.end - span.start
    } by {
        assert(stands_in(text, hashtags(text)[i]));
    }
}

/// The marker at `p` opens a word: it stands at the start of the text or
/// after whitespace, and an ordinary character follows it.
pub open spec fn opens_word(text: Seq<char>, p: int) -> bool {
    &&& 0 <= p
    &&& p + 1 < text.len()
    &&& char_class(text[p]) == CharClass::Marker
    &&& char_class(text[p + 1]) == CharClass::Ordinary
    &&& p == 0 || char_class(text[p - 1]) == CharClass::Whitespace
}

/// A candidate that has taken a character, or is about to, is confirmed
/// by a later token: the result is the index of that token.
proof fn lemma_candidate_is_confirmed(text: Seq<char>, p: int, k: nat) -> (m: nat)
    requires
        0 <= p,
        p + 2 <= k <= text.len() + 1,
        state_after(text, k) is Accumulating,
        state_after(text, k)->start == p,
        state_after(text, k)->consumed_any || (k <= text.len() && char_class(text[k - 1])
            == CharClass::Ordinary),
    ensures
        k <= m < text.len() + 2,
        scan_step(text, state_after(text, m), m as int).1 is Some,
        scan_step(text, state_after(text, m), m as int).1->0.start == p,
    decreases text.len() + 2 - k,
{
    lemma_scanned(text, k);
    let state = state_after(text, k);
    assert(reads(text, state, k - 1));
    if k <= text.len() {
        assert(token_at(text, k as int) == token_of(text[k - 1]));
    }
    let step = scan_step(text, state, k as int);
    if step.1 is Some {
        k
    } else {
        assert(state_after(text, k + 1) == step.0);
        lemma_candidate_is_confirmed(text, p, k + 1)
    }
}

/// A marker that opens a word is the start of a hashtag: no hashtag that
/// stands at the start of the text or after whitespace is passed over.
pub proof fn law_word_opening_marker_is_found(text: Seq<char>, p: int)
    requires
        opens_word(text, p),
    ensures
        exists|i: int| 0 <= i < hashtags(text).len() && (#[trigger] hashtags(text)[i]).start == p,
{
    let armed = state_after(text, (p + 1) as nat);
    assert(armed == scan_step(text, state_after(text, p as nat), p).0);
    assert(token_at(text, p + 1) == Token::Hashtag);
    if p > 0 {
        assert(token_at(text, p) == Token::Whitespace);
    }
    assert(armed == Scan::Accumulating { start: p, consumed_any: false });
    let opened = state_after(text, (p + 2) as nat);
    assert(opened == scan_step(text, armed, p + 1).0);
    assert(token_at(text, p + 2) == token_of(text[p + 1]));
    assert(opened == Scan::Accumulating { start: p, consumed_any: false });
    let m = lemma_candidate_is_confirmed(text, p, (p + 2) as nat);
    let now = found_after(text, m + 1);
    lemma_found_prefix(text, m + 1, text.len() + 2);
    let i = now.len() - 1;
    assert(now[i].start == p);
    assert(hashtags(text).subrange(0, now.len() as int)[i] == hashtags(text)[i]);
}

/// Two scans of the same text find the same hashtags, in the same order.
pub proof fn law_same_text_same_hashtags(
    text: Seq<char>,
    again: Seq<char>,
    first: Seq<Hashtag<'_>>,
    second: Seq<Hashtag<'_>>,
)
    requires
        text == again,
        spans(first) == hashtags(text),
        spans(second) == hashtags(again),
    ensures
        first.len() == second.len(),
        forall|i: int| 0 <= i < first.len() ==> (#[trigger] first[i])@ == second[i]@,
{
    assert(spans(first).len() == first.len());
    assert(spans(second).len() == second.len());
    assert forall|i: int| 0 <= i < first.len() implies (#[trigger] first[i])@ == second[i]@ by {
        assert(spans(first)[i] == first[i]@);
        assert(spans(second)[i] == second[i]@);
    }
}

} // verus!
