use patch_browser::text::{chars_of, find_char, string_of};

#[test]
fn chars_of_lists_every_character() {
    assert_eq!(chars_of(""), Vec::<char>::new());
    assert_eq!(chars_of("a\tb"), vec!['a', '\t', 'b']);
    assert_eq!(chars_of("Fl\u{00fc}gel"), vec!['F', 'l', '\u{00fc}', 'g', 'e', 'l']);
    assert_eq!(chars_of("\u{1f3b9}!"), vec!['\u{1f3b9}', '!']);
}

#[test]
fn string_of_joins_characters() {
    assert_eq!(string_of(&[]), "");
    assert_eq!(string_of(&['P', 'a', 'd']), "Pad");
    assert_eq!(string_of(&['\u{00fc}', '\u{266b}']), "\u{00fc}\u{266b}");
    let text = "Bright Lead \u{266b}";
    assert_eq!(string_of(&chars_of(text)), text);
}

#[test]
fn find_char_gives_first_position_or_length() {
    let s = chars_of("ab\tcd\tef");
    assert_eq!(find_char(&s, '\t', 0), 2);
    assert_eq!(find_char(&s, '\t', 2), 2);
    assert_eq!(find_char(&s, '\t', 3), 5);
    assert_eq!(find_char(&s, '\t', 6), 8);
    assert_eq!(find_char(&s, '\t', 8), 8);
    assert_eq!(find_char(&s, '\t', 100), 8);
    assert_eq!(find_char(&s, 'a', 0), 0);
    assert_eq!(find_char(&s, 'z', 0), 8);
    assert_eq!(find_char(&[], 'a', 0), 0);
}
