use hashtag::machine::ParsingState;
use hashtag::token::Token;
use hashtag::{Hashtag, HashtagParser};
use std::borrow::Cow;

fn tag(text: &str, start: usize, end: usize) -> Hashtag<'static> {
    Hashtag { text: Cow::from(text.to_string()), start, end }
}

fn pull(text: &str) -> Vec<Hashtag<'_>> {
    let mut parser = HashtagParser::new(text);
    let mut found = Vec::new();
    while let Some(h) = parser.next() {
        found.push(h);
    }
    assert_eq!(parser.next(), None);
    found
}

fn assert_parse(text: &str, expected: Vec<Hashtag<'static>>) {
    assert_eq!(Hashtag::parse(text), expected);
    assert_eq!(pull(text), expected);
}

#[test]
fn parser_yields_hashtags_one_by_one() {
    let mut parser = HashtagParser::new("#rust is #awesome");
    assert_eq!(parser.next().unwrap(), Hashtag { text: Cow::from("rust"), start: 0, end: 4 });
    assert_eq!(parser.next().unwrap(), Hashtag { text: Cow::from("awesome"), start: 9, end: 16 });
    assert_eq!(parser.next(), None);
}

#[test]
fn parser_is_fused() {
    let mut parser = HashtagParser::new("#a");
    assert_eq!(parser.next(), Some(tag("a", 0, 1)));
    assert_eq!(parser.next(), None);
    assert_eq!(parser.next(), None);
    assert_eq!(parser.next(), None);
}

#[test]
fn empty_text_has_no_hashtags() {
    assert_parse("", vec![]);
}

#[test]
fn text_without_marker_has_no_hashtags() {
    assert_parse("just some words, nothing else", vec![]);
}

#[test]
fn marker_without_content_is_rejected() {
    assert_parse("#", vec![]);
    assert_parse("#%", vec![]);
    assert_parse("here #", vec![]);
    assert_parse("# a", vec![]);
    assert_parse("#\n", vec![]);
}

#[test]
fn adjacent_hashtags_split() {
    assert_parse("#a#b", vec![tag("a", 0, 1), tag("b", 2, 3)]);
    assert_parse("#a#", vec![tag("a", 0, 1)]);
    assert_parse("text #foo#bar", vec![tag("foo", 5, 8), tag("bar", 9, 12)]);
}

#[test]
fn marker_in_the_middle_of_a_word_is_rejected() {
    assert_parse("here comes foo#bar", vec![]);
    assert_parse("a#b #c", vec![tag("c", 4, 5)]);
}

#[test]
fn underscore_is_kept() {
    assert_parse("#_foo_", vec![tag("_foo_", 0, 5)]);
    assert_parse("#ab_cd", vec![tag("ab_cd", 0, 5)]);
}

#[test]
fn emoji_hashtag_counts_characters() {
    assert_parse("#😀", vec![tag("😀", 0, 1)]);
    assert_parse("😀 #😀😀 x", vec![tag("😀😀", 2, 4)]);
}

#[test]
fn double_marker_starts_at_the_second() {
    assert_parse("##here comes", vec![tag("here", 1, 5)]);
    assert_parse("###x", vec![tag("x", 2, 3)]);
}

#[test]
fn marker_dropped_before_a_terminator_arms_nothing() {
    assert_parse("#%#a", vec![]);
    assert_parse("#.#b", vec![]);
    assert_parse("##%#a", vec![]);
}

#[test]
fn terminator_closes_and_a_following_marker_opens() {
    assert_parse("#a.#b", vec![tag("a", 0, 1), tag("b", 3, 4)]);
    assert_parse("#a.b", vec![tag("a", 0, 1)]);
    assert_parse("#abc, and then", vec![tag("abc", 0, 3)]);
}

#[test]
fn every_terminator_ends_a_hashtag() {
    let terminators = "'%\"!@€$^&*().,-<>/\\|[]{}`~=+;?£•´:";
    for c in terminators.chars() {
        let text = format!("#ab{}cd", c);
        assert_eq!(Hashtag::parse(&text), vec![tag("ab", 0, 2)]);
        assert_eq!(pull(&text), vec![tag("ab", 0, 2)]);
    }
}

#[test]
fn every_whitespace_ends_and_arms() {
    assert_parse(
        "#a\t#b\n#c\r#d #e",
        vec![tag("a", 0, 1), tag("b", 3, 4), tag("c", 6, 7), tag("d", 9, 10), tag("e", 12, 13)],
    );
}

#[test]
fn hashtag_at_the_end_of_the_text_is_closed() {
    assert_parse("so #last", vec![tag("last", 3, 7)]);
}

#[test]
fn mixed_width_text_keeps_character_positions() {
    assert_parse("héllo #wörld #x", vec![tag("wörld", 6, 11), tag("x", 13, 14)]);
}

#[test]
fn single_byte_text_is_sliced_and_other_text_is_copied() {
    let plain = Hashtag::parse("say #abc now");
    assert_eq!(plain.len(), 1);
    assert!(matches!(plain[0].text, Cow::Borrowed("abc")));
    let wide = Hashtag::parse("say #abc nöw");
    assert_eq!(wide.len(), 1);
    assert!(matches!(wide[0].text, Cow::Owned(_)));
    assert_eq!(plain, wide);
}

#[test]
fn text_is_the_slice_after_the_marker() {
    let input = "a #bc d#e #fgh_1 #i#jk.";
    let found = Hashtag::parse(input);
    assert_eq!(
        found,
        vec![tag("bc", 2, 4), tag("fgh_1", 10, 15), tag("i", 17, 18), tag("jk", 19, 21)]
    );
    for h in &found {
        assert_eq!(h.as_ref(), &input[h.start + 1..h.end + 1]);
        assert_eq!(&input[h.start..h.start + 1], "#");
    }
}

#[test]
fn spans_are_ordered_and_inside_the_text() {
    let input = "#one #two#three, #four";
    let found = Hashtag::parse(input);
    assert_eq!(found.len(), 4);
    let mut last_end = None;
    for h in &found {
        assert!(h.start < h.end);
        assert!(h.end < input.chars().count());
        assert!(!h.text.is_empty());
        if let Some(e) = last_end {
            assert!(e < h.start);
        }
        last_end = Some(h.end);
    }
}

#[test]
fn parsing_twice_gives_the_same() {
    let input = "#a #b% #ç #d#e";
    assert_eq!(Hashtag::parse(input), Hashtag::parse(input));
    assert_eq!(pull(input), Hashtag::parse(input));
    assert_eq!(
        Hashtag::parse(input),
        vec![tag("a", 0, 1), tag("b", 3, 4), tag("ç", 7, 8), tag("d", 10, 11), tag("e", 12, 13)]
    );
}

#[test]
fn display_form_puts_the_marker_back() {
    let found = Hashtag::parse("#rust is #awesöme");
    assert_eq!(found[0].to_string(), "#rust");
    assert_eq!(found[1].to_string(), "#awesöme");
    assert_eq!(found[0].as_ref(), "rust");
}

#[test]
fn clone_is_equal() {
    let found = Hashtag::parse("#rust #ünï");
    let copies: Vec<Hashtag<'_>> = found.iter().map(|h| h.clone()).collect();
    assert_eq!(found, copies);
    assert!(matches!(copies[0].text, Cow::Owned(_)));
    assert_eq!(copies[1], tag("ünï", 6, 9));
    let plain = Hashtag::parse("#rust");
    let copy = plain[0].clone();
    assert!(matches!(copy.text, Cow::Borrowed("rust")));
    assert_eq!(copy, tag("rust", 0, 4));
}

#[test]
fn step_from_the_start_sentinel_arms_before_a_marker() {
    let (state, found) =
        ParsingState::new().step(Token::StartOfString, 0, Some(Token::Hashtag), "#a", false);
    assert_eq!(found, None);
    assert!(state.parsing_hashtag());
    let (state, found) = state.step(Token::Hashtag, 0, Some(Token::Char('a')), "#a", false);
    assert_eq!(found, None);
    assert!(matches!(state, ParsingState::Accumulating { start: 0, consumed_any: false, .. }));
    let (state, found) = state.step(Token::Char('a'), 1, Some(Token::EndOfString), "#a", false);
    assert_eq!(found, None);
    assert!(matches!(state, ParsingState::Accumulating { start: 0, consumed_any: true, .. }));
    let (state, found) = state.step(Token::EndOfString, 2, None, "#a", false);
    assert_eq!(found, Some(tag("a", 0, 1)));
    assert!(!state.parsing_hashtag());
}

#[test]
fn step_fills_the_buffer_only_when_buffered() {
    let state = ParsingState::hashtag_incoming(0).consume_char('é', true);
    match state {
        ParsingState::Accumulating { start, buffer, consumed_any } => {
            assert_eq!(start, 0);
            assert_eq!(buffer, "é");
            assert!(consumed_any);
        }
        ParsingState::Idle => panic!("a candidate was armed"),
    }
    let state = ParsingState::hashtag_incoming(3).consume_char('e', false);
    match state {
        ParsingState::Accumulating { start, buffer, consumed_any } => {
            assert_eq!(start, 3);
            assert_eq!(buffer, "");
            assert!(consumed_any);
        }
        ParsingState::Idle => panic!("a candidate was armed"),
    }
}

#[test]
fn closing_an_empty_candidate_gives_nothing() {
    assert_eq!(ParsingState::hashtag_incoming(0).hashtag_finishes_at(0, "# ", false), None);
    assert_eq!(ParsingState::reset_parsing_state().hashtag_finishes_at(0, "ab", false), None);
    let restarted = ParsingState::hashtag_incoming(0).hashtag_token_seen_at(1);
    assert!(matches!(restarted, ParsingState::Accumulating { start: 1, consumed_any: false, .. }));
}
