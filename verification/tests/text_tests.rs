use scrcpy_gui::text::{chars_of, ends_with, is_whitespace_char, replace_char, starts_with, string_of, trim};

#[test]
fn white_space_is_the_unicode_property() {
    let mut code: u32 = 0;
    while code <= 0x10ffff {
        if let Some(c) = char::from_u32(code) {
            assert_eq!(is_whitespace_char(c), c.is_whitespace(), "U+{:04X}", code);
        }
        code += 1;
    }
}

#[test]
fn chars_and_strings_convert_both_ways() {
    let text = "a\u{e9}\u{1f600}z";
    let chars = chars_of(text);
    assert_eq!(chars, vec!['a', '\u{e9}', '\u{1f600}', 'z']);
    assert_eq!(string_of(&chars), text);
    assert_eq!(string_of(&chars_of("")), "");
}

#[test]
fn trim_agrees_with_the_standard_library() {
    let samples = ["", " ", "  a  ", "\t\na b\r\n", "a", "\u{a0}x\u{3000}", " \u{2003} ", "x  y"];
    for sample in samples {
        assert_eq!(string_of(&trim(&chars_of(sample))), sample.trim(), "{:?}", sample);
    }
}

#[test]
fn prefixes_and_suffixes() {
    let name = chars_of("scrcpy-linux-x86_64-v3.1.tar.gz");
    assert!(starts_with(&name, &chars_of("scrcpy-linux-x86_64-v")));
    assert!(!starts_with(&name, &chars_of("scrcpy-macos")));
    assert!(ends_with(&name, &chars_of(".tar.gz")));
    assert!(!ends_with(&name, &chars_of(".zip")));
    assert!(starts_with(&name, &chars_of("")));
    assert!(ends_with(&name, &chars_of("")));
    assert!(!starts_with(&chars_of("ab"), &chars_of("abc")));
    assert!(!ends_with(&chars_of("bc"), &chars_of("abc")));
}

#[test]
fn replace_char_puts_the_replacement_for_each_occurrence() {
    let out = replace_char(&chars_of("a.b..c"), '.', &chars_of("<>"));
    assert_eq!(string_of(&out), "a<>b<><>c");
    let gone = replace_char(&chars_of("a.b"), '.', &chars_of(""));
    assert_eq!(string_of(&gone), "ab");
}

#[test]
fn words_are_compared_character_by_character() {
    assert!(scrcpy_gui::text::is_word(&chars_of("device"), "device"));
    assert!(!scrcpy_gui::text::is_word(&chars_of("devices"), "device"));
    assert!(!scrcpy_gui::text::is_word(&chars_of("Device"), "device"));
    assert!(scrcpy_gui::text::is_word(&chars_of(""), ""));
}
