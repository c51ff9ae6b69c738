use typhoondsl_outliner::lexer::{consume_until, leading_whitespace, line_length, Word};
use typhoondsl_outliner::text::{char_is_whitespace, char_len_utf8, last_char};

fn words(lits: &[&str]) -> Vec<Word> {
    lits.iter().map(|l| Word::new(l)).collect()
}

#[test]
fn words_know_whether_they_are_identifier_like() {
    assert!(Word::new("component").is_id);
    assert!(Word::new("end-code_x").is_id);
    assert!(!Word::new("//").is_id);
    assert!(!Word::new("CODE1").is_id);
    assert_eq!(Word::new("\u{e9}a").chars, vec!['\u{e9}', 'a']);
}

#[test]
fn consume_until_first_word() {
    let ws = words(&["{", "model"]);
    assert_eq!(consume_until(&ws, ' ', "ab { c"), 3);
    assert_eq!(consume_until(&ws, ' ', "{ c"), 0);
    // `model` inside a longer word does not count
    assert_eq!(consume_until(&ws, ' ', "remodel x {"), 10);
    // nor right after a word character before the text
    assert_eq!(consume_until(&ws, 'a', "model {"), 6);
    assert_eq!(consume_until(&ws, ' ', "no stop word"), 12);
    assert_eq!(consume_until(&ws, ' ', ""), 0);
}

#[test]
fn leading_whitespace_and_lines() {
    assert_eq!(leading_whitespace(" \t\nx "), vec![' ', '\t', '\n']);
    assert_eq!(leading_whitespace("x "), Vec::<char>::new());
    assert_eq!(line_length("ab\ncd"), 3);
    assert_eq!(line_length("abc"), 3);
    assert_eq!(line_length("\n"), 1);
    assert_eq!(line_length(""), 0);
}

#[test]
fn last_character_of_text() {
    assert_eq!(last_char(""), None);
    assert_eq!(last_char("a"), Some('a'));
    assert_eq!(last_char("ab\u{e9}"), Some('\u{e9}'));
    assert_eq!(last_char("x\u{3000}"), Some('\u{3000}'));
    assert_eq!(last_char("\u{1F600}"), Some('\u{1F600}'));
    assert_eq!(last_char("\u{1F600}z"), Some('z'));
}

#[test]
fn utf8_widths() {
    assert_eq!(char_len_utf8('a'), 1);
    assert_eq!(char_len_utf8('\u{7f}'), 1);
    assert_eq!(char_len_utf8('\u{80}'), 2);
    assert_eq!(char_len_utf8('\u{7ff}'), 2);
    assert_eq!(char_len_utf8('\u{800}'), 3);
    assert_eq!(char_len_utf8('\u{ffff}'), 3);
    assert_eq!(char_len_utf8('\u{10000}'), 4);
}

#[test]
fn whitespace_characters() {
    for c in ['\t', '\n', '\u{b}', '\u{c}', '\r', ' ', '\u{85}', '\u{a0}', '\u{1680}', '\u{2000}', '\u{200a}', '\u{2028}', '\u{2029}', '\u{202f}', '\u{205f}', '\u{3000}'] {
        assert!(char_is_whitespace(c), "{:?}", c);
        assert_eq!(char_is_whitespace(c), c.is_whitespace());
    }
    for c in ['a', '\u{8}', '\u{e}', '\u{200b}', '\u{feff}', '\u{180e}', '_'] {
        assert!(!char_is_whitespace(c), "{:?}", c);
        assert_eq!(char_is_whitespace(c), c.is_whitespace());
    }
}
