use talk_to_me::text::{
    chars_of, contains_chars, is_whitespace, replace_char, same_text, slice_chars, trim,
    trim_bounds,
};

#[test]
fn whitespace_is_what_std_calls_whitespace() {
    for code in 0u32..=0x10ffff {
        if let Some(c) = char::from_u32(code) {
            assert_eq!(is_whitespace(c), c.is_whitespace(), "U+{:04X}", code);
        }
    }
}

#[test]
fn trim_agrees_with_std_on_samples() {
    let samples = [
        "",
        " ",
        "a",
        "  a b  ",
        "\t\r\n x \u{a0}\u{3000}",
        "\u{2581}x",
        "x\u{200b}",
        " \u{feff}x ",
        "\n\n",
    ];
    for s in samples {
        assert_eq!(trim(s), s.trim(), "{:?}", s);
    }
}

#[test]
fn trim_bounds_mark_the_kept_part() {
    let chars: Vec<char> = "  ab c ".chars().collect();
    assert_eq!(trim_bounds(&chars), (2, 6));
    let blank: Vec<char> = "   ".chars().collect();
    assert_eq!(trim_bounds(&blank), (3, 3));
    assert_eq!(trim_bounds(&[]), (0, 0));
}

#[test]
fn chars_and_slices_keep_order() {
    assert_eq!(chars_of("h\u{e9}llo"), vec!['h', '\u{e9}', 'l', 'l', 'o']);
    let chars = chars_of("hello");
    assert_eq!(slice_chars(&chars, 1, 4), vec!['e', 'l', 'l']);
    assert_eq!(slice_chars(&chars, 2, 2), Vec::<char>::new());
}

#[test]
fn replace_char_replaces_every_occurrence() {
    let mut chars = chars_of("\u{2581}a\u{2581}\u{2581}b");
    replace_char(&mut chars, '\u{2581}', ' ');
    assert_eq!(chars, chars_of(" a  b"));
}

#[test]
fn contains_finds_substrings() {
    let hay = chars_of("parakeet-tdt-0.6b");
    assert!(contains_chars(&hay, &chars_of("tdt")));
    assert!(contains_chars(&hay, &chars_of("")));
    assert!(contains_chars(&hay, &chars_of("6b")));
    assert!(!contains_chars(&hay, &chars_of("ctc")));
    assert!(!contains_chars(&hay, &chars_of("tdtt")));
    assert!(!contains_chars(&chars_of("td"), &chars_of("tdt")));
    assert!(contains_chars(&chars_of("ttdt"), &chars_of("tdt")));
}

#[test]
fn same_text_compares_characters() {
    assert!(same_text("auto", "auto"));
    assert!(!same_text("auto", "Auto"));
    assert!(!same_text("auto", "aut"));
    assert!(same_text("", ""));
}
