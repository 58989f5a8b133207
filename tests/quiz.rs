use hantracker::chars::{sort_kanji, vec_string_to_vec_char, InvalidArgument};
use hantracker::classify::is_chinese_character;
use hantracker::deck::{build_deck, dedup_chars, keep_cjk};
use hantracker::session::{Card, Message, OutputMessage, Recalled, SessionError, TestingScreen};

fn chars_of(text: &str) -> Vec<char> {
    text.chars().collect()
}

fn sorted_copy(v: &[char]) -> Vec<char> {
    let mut w = v.to_vec();
    w.sort();
    w
}

fn started(text: &str) -> TestingScreen {
    let mut s = TestingScreen::new();
    let out = s.update(Message::StartTest(chars_of(text)));
    assert_eq!(out, Ok(None));
    s
}

fn finished_with(out: Result<Option<OutputMessage>, SessionError>) -> Vec<char> {
    match out {
        Ok(Some(OutputMessage::Finish(v))) => v,
        other => panic!("expected a finish, got {:?}", other),
    }
}

#[test]
fn classifies_common_ideographs() {
    for c in "我爱中文字漢".chars() {
        assert!(is_chinese_character(&c), "{}", c);
    }
}

#[test]
fn rejects_other_scripts() {
    for c in "Hello, world! かなカナ한국어，。1".chars() {
        assert!(!is_chinese_character(&c), "{}", c);
    }
}

#[test]
fn classifies_range_edges() {
    let ranges: [(u32, u32); 11] = [
        (0x3400, 0x4DBF),
        (0x4E00, 0x9FFF),
        (0x20000, 0x2A6DF),
        (0x2A700, 0x2B73F),
        (0x2B740, 0x2B81F),
        (0x2B820, 0x2CEAF),
        (0x2CEB0, 0x2EBEF),
        (0x2EBF0, 0x2EE5F),
        (0x2F800, 0x2FA1F),
        (0x30000, 0x3134F),
        (0x31350, 0x323AF),
    ];
    for (lo, hi) in ranges {
        assert!(is_chinese_character(&char::from_u32(lo).unwrap()));
        assert!(is_chinese_character(&char::from_u32(hi).unwrap()));
    }
    for cp in [0x33FFu32, 0x4DC0, 0x4DFF, 0xA000, 0x1FFFF, 0x2A6E0, 0x2EE60, 0x2F7FF, 0x2FA20, 0x2FFFF, 0x323B0, 0x10FFFF] {
        assert!(!is_chinese_character(&char::from_u32(cp).unwrap()), "{:x}", cp);
    }
}

#[test]
fn classification_is_repeatable() {
    for c in ['我', 'a', '\u{3400}', '\u{323B0}'] {
        assert_eq!(is_chinese_character(&c), is_chinese_character(&c));
    }
}

#[test]
fn keep_cjk_keeps_order_and_repeats() {
    assert_eq!(keep_cjk(&chars_of("a我b爱我 c")), chars_of("我爱我"));
    assert_eq!(keep_cjk(&chars_of("")), Vec::<char>::new());
}

#[test]
fn dedup_collapses_only_neighbours() {
    assert_eq!(dedup_chars(&chars_of("字字字")), chars_of("字"));
    assert_eq!(dedup_chars(&chars_of("我我爱爱我")), chars_of("我爱我"));
    assert_eq!(dedup_chars(&chars_of("")), Vec::<char>::new());
}

#[test]
fn dedup_leaves_no_equal_neighbours() {
    let out = dedup_chars(&chars_of("aabbbcaaddd"));
    assert_eq!(out, chars_of("abcad"));
    for w in out.windows(2) {
        assert_ne!(w[0], w[1]);
    }
}

#[test]
fn build_deck_is_a_shuffle_of_the_collapsed_ideographs() {
    let deck = build_deck(&chars_of("x我我爱y中文我"));
    assert_eq!(sorted_copy(&deck), sorted_copy(&chars_of("我爱中文我")));
    assert!(deck.iter().all(|c| is_chinese_character(c)));
}

#[test]
fn build_deck_keeps_repeats_that_were_not_neighbours() {
    let deck = build_deck(&chars_of("我爱我"));
    assert_eq!(deck.len(), 3);
    assert_eq!(deck.iter().filter(|c| **c == '我').count(), 2);
}

#[test]
fn build_deck_of_text_without_ideographs_is_empty() {
    assert!(build_deck(&chars_of("Hello world")).is_empty());
    assert!(build_deck(&chars_of("")).is_empty());
}

#[test]
fn end_to_end_five_characters() {
    let mut s = started("我爱中文我");
    assert_eq!(s.deck_len(), 5);
    assert_eq!(sorted_copy(&s.characters()), sorted_copy(&chars_of("我爱中文我")));
    let deck = s.characters();
    let mut known = Vec::new();
    let mut last = None;
    for i in 0..5 {
        let recalled = if i == 2 { Recalled::Unknown } else { Recalled::Known };
        if i != 2 {
            known.push(deck[i]);
        }
        last = Some(s.update(Message::Answer(recalled)));
        if i < 4 {
            assert_eq!(last, Some(Ok(None)));
        }
    }
    let result = finished_with(last.unwrap());
    assert_eq!(result.len(), 4);
    assert_eq!(result, known);
    assert!(s.is_finished());
}

#[test]
fn end_to_end_no_ideographs() {
    let mut s = started("Hello world");
    assert_eq!(s.deck_len(), 0);
    assert!(s.is_finished());
    assert_eq!(s.current_character(), None);
    assert_eq!(finished_with(s.update(Message::Finish)), Vec::<char>::new());
    assert_eq!(finished_with(s.update(Message::Answer(Recalled::Known))), Vec::<char>::new());
}

#[test]
fn end_to_end_repeated_character() {
    let mut s = started("字字字");
    assert_eq!(s.deck_len(), 1);
    assert_eq!(s.characters(), vec!['字']);
    assert_eq!(s.current_character(), Some('字'));
    assert_eq!(finished_with(s.update(Message::Answer(Recalled::Known))), vec!['字']);
}

#[test]
fn go_back_on_first_card_is_refused() {
    let mut s = started("我爱");
    assert_eq!(s.update(Message::GoBack), Err(SessionError::NoPreviousCharacter));
    assert_eq!(s.current_index(), 0);
    assert_eq!(s.deck_len(), 2);
    let mut empty = TestingScreen::new();
    assert_eq!(empty.go_back(), Err(SessionError::NoPreviousCharacter));
}

#[test]
fn answering_again_after_going_back_overwrites() {
    let mut s = TestingScreen::new();
    s.load_deck(vec!['我', '爱', '中']);
    assert_eq!(s.answer(Recalled::Known), None);
    assert_eq!(s.previous_character(), Some('我'));
    assert_eq!(s.update(Message::GoBack), Ok(None));
    assert_eq!(s.current_index(), 0);
    assert_eq!(s.cards()[0].recalled, Recalled::Known);
    assert_eq!(s.answer(Recalled::Unknown), None);
    assert_eq!(s.deck_len(), 3);
    assert_eq!(
        s.cards()[0],
        Card { character: '我', recalled: Recalled::Unknown }
    );
    assert_eq!(s.answer(Recalled::Known), None);
    assert_eq!(s.answer(Recalled::Known), Some(vec!['爱', '中']));
}

#[test]
fn going_back_from_the_end_reopens_the_last_card() {
    let mut s = TestingScreen::new();
    s.load_deck(vec!['中', '文']);
    assert_eq!(s.answer(Recalled::Known), None);
    assert_eq!(s.answer(Recalled::Known), Some(vec!['中', '文']));
    assert_eq!(s.go_back(), Ok(()));
    assert!(!s.is_finished());
    assert_eq!(s.current_character(), Some('文'));
    assert_eq!(s.answer(Recalled::Unknown), Some(vec!['中']));
}

#[test]
fn early_finish_reports_known_so_far() {
    let mut s = TestingScreen::new();
    s.load_deck(vec!['中', '文', '字']);
    assert_eq!(s.answer(Recalled::Unknown), None);
    assert_eq!(s.answer(Recalled::Known), None);
    assert_eq!(finished_with(s.update(Message::Finish)), vec!['文']);
    assert_eq!(s.current_index(), 2);
    assert_eq!(s.known(), vec!['文']);
}

#[test]
fn load_deck_starts_unanswered() {
    let mut s = TestingScreen::new();
    s.load_deck(vec!['中', '文']);
    assert_eq!(s.current_index(), 0);
    assert_eq!(s.previous_character(), None);
    assert!(s.cards().iter().all(|c| c.recalled == Recalled::Unknown));
    assert_eq!(s.known(), Vec::<char>::new());
}

#[test]
fn start_test_replaces_the_previous_session() {
    let mut s = started("中文");
    s.answer(Recalled::Known);
    assert_eq!(s.update(Message::StartTest(chars_of("字"))), Ok(None));
    assert_eq!(s.current_index(), 0);
    assert_eq!(s.cards(), vec![Card { character: '字', recalled: Recalled::Unknown }]);
}

#[test]
fn sort_kanji_orders_by_code_point() {
    let mut v = chars_of("文中我爱a");
    sort_kanji(&mut v);
    assert_eq!(v, vec!['a', '中', '我', '文', '爱']);
    let mut e: Vec<char> = Vec::new();
    sort_kanji(&mut e);
    assert!(e.is_empty());
}

#[test]
fn one_char_strings_convert() {
    let strs = vec!["我".to_string(), "a".to_string(), "字".to_string()];
    assert_eq!(vec_string_to_vec_char(strs), Ok(vec!['我', 'a', '字']));
    assert_eq!(vec_string_to_vec_char(Vec::new()), Ok(Vec::new()));
}

#[test]
fn longer_or_empty_strings_are_refused() {
    let strs = vec!["我".to_string(), "中文".to_string(), "".to_string()];
    assert_eq!(vec_string_to_vec_char(strs), Err(InvalidArgument { index: 1 }));
    let strs = vec!["".to_string()];
    assert_eq!(vec_string_to_vec_char(strs), Err(InvalidArgument { index: 0 }));
}
