use talk_to_me::engine::vocabulary::{
    find_last, load_tokenizer_json, load_vocab_txt, parse_decimal, parse_json, parse_line, Json,
    VocabError,
};

fn chars(s: &str) -> Vec<char> {
    s.chars().collect()
}

fn tokens(s: &[&str]) -> Vec<String> {
    s.iter().map(|t| t.to_string()).collect()
}

#[test]
fn vocab_text_gives_tokens_by_id() {
    let v = load_vocab_txt("<unk> 0\n\u{2581}the 1\ns 2\n<blk> 3\n").unwrap();
    assert_eq!(v.tokens, tokens(&["<unk>", "\u{2581}the", "s", "<blk>"]));
    assert_eq!(v.blank_id, 3);
    assert_eq!(v.vocab_size, 4);
}

#[test]
fn vocab_text_passes_over_lines_without_an_entry() {
    let v = load_vocab_txt("\n  \nnospace\nbad 3x\nneg -1\na 0\r\n  b   1  \n\nc +2").unwrap();
    assert_eq!(v.tokens, tokens(&["a", "b  ", "c"]));
    assert_eq!(v.blank_id, 2);
}

#[test]
fn vocab_text_keeps_spaces_inside_a_token() {
    let v = load_vocab_txt("new york 1\nx 0").unwrap();
    assert_eq!(v.tokens, tokens(&["x", "new york"]));
}

#[test]
fn vocab_text_last_entry_of_an_id_wins_and_gaps_are_empty() {
    let v = load_vocab_txt("a 0\nb 3\nc 0\nd 03").unwrap();
    assert_eq!(v.tokens, tokens(&["c", "", "", "d"]));
    assert_eq!(v.blank_id, 3);
    assert_eq!(v.vocab_size, 4);
}

#[test]
fn vocab_text_without_entries_is_refused() {
    assert_eq!(load_vocab_txt("").err(), Some(VocabError::NoEntries));
    assert_eq!(load_vocab_txt("\n\n  \n").err(), Some(VocabError::NoEntries));
    assert_eq!(load_vocab_txt("token\nother x").err(), Some(VocabError::NoEntries));
    assert_eq!(
        load_vocab_txt("t 99999999999999999999999999").err(),
        Some(VocabError::NoEntries)
    );
}

#[test]
fn vocab_text_with_an_id_that_leaves_no_room_is_refused() {
    let text = format!("a 0\nt {}", usize::MAX);
    assert_eq!(load_vocab_txt(&text).err(), Some(VocabError::IdTooLarge));
}

#[test]
fn decimal_numbers_are_read_as_std_reads_them() {
    for s in ["0", "7", "007", "+5", "+", "", "-1", "1 ", " 1", "12a", "18446744073709551615",
        "18446744073709551616", "99999999999999999999", "++1", "1+", "\u{661}"]
    {
        let c = chars(s);
        assert_eq!(parse_decimal(&c, 0, c.len()), s.parse::<usize>().ok(), "{:?}", s);
    }
    let c = chars("ab123cd");
    assert_eq!(parse_decimal(&c, 2, 5), Some(123));
}

#[test]
fn last_space_is_found_from_the_end() {
    let c = chars("a b c");
    assert_eq!(find_last(&c, 0, 5, ' '), Some(3));
    assert_eq!(find_last(&c, 0, 3, ' '), Some(1));
    assert_eq!(find_last(&c, 2, 3, ' '), None);
    assert_eq!(find_last(&c, 2, 5, ' '), Some(1));
    assert_eq!(find_last(&c, 0, 0, ' '), None);
}

#[test]
fn a_line_gives_token_and_id() {
    let e = parse_line(&chars("  \u{2581}hello 42 ")).unwrap();
    assert_eq!((e.token, e.id), (chars("\u{2581}hello"), 42));
    assert!(parse_line(&chars("hello")).is_none());
    assert!(parse_line(&chars("hello world")).is_none());
    assert!(parse_line(&chars("")).is_none());
}

#[test]
fn tokenizer_array_gives_tokens_in_order() {
    let v = load_tokenizer_json(
        r#"{"model":{"vocab":["a","b",["c",-1.5],5,[],[3,"x"],null,{"k":1},"<blk>"]}}"#,
    )
    .unwrap();
    assert_eq!(v.tokens, tokens(&["a", "b", "c", "<blk>"]));
    assert_eq!(v.blank_id, 3);
    assert_eq!(v.vocab_size, 4);
}

#[test]
fn tokenizer_object_gives_tokens_by_id() {
    let v = load_tokenizer_json(
        r#"{"model":{"vocab":{"b":1,"zz":0,"c":2,"neg":-1,"frac":1.5,"text":"s","<blk>":3}}}"#,
    )
    .unwrap();
    assert_eq!(v.tokens, tokens(&["zz", "b", "c", "<blk>"]));
    assert_eq!(v.blank_id, 3);
}

#[test]
fn tokenizer_object_keeps_the_order_of_equal_ids() {
    let v = load_tokenizer_json(r#"{"vocab":{"b":0,"a":0,"c":1,"0":0}}"#).unwrap();
    assert_eq!(v.tokens, tokens(&["0", "a", "b", "c"]));
}

#[test]
fn tokenizer_falls_back_to_the_vocabulary_at_the_top() {
    let v = load_tokenizer_json(r#"{"model":{"vocab":[]},"vocab":{"x":1,"y":0}}"#).unwrap();
    assert_eq!(v.tokens, tokens(&["y", "x"]));
    let v = load_tokenizer_json(r#"{"model":{"type":"bpe"},"vocab":{"x":0}}"#).unwrap();
    assert_eq!(v.tokens, tokens(&["x"]));
    let v = load_tokenizer_json(r#"{"model":{"vocab":["m"]},"vocab":{"x":0}}"#).unwrap();
    assert_eq!(v.tokens, tokens(&["m"]));
}

#[test]
fn tokenizer_without_tokens_is_refused() {
    assert_eq!(load_tokenizer_json("{}").err(), Some(VocabError::NoEntries));
    assert_eq!(load_tokenizer_json("[]").err(), Some(VocabError::NoEntries));
    assert_eq!(load_tokenizer_json(r#"{"vocab":["a"]}"#).err(), Some(VocabError::NoEntries));
    assert_eq!(load_tokenizer_json(r#"{"model":{"vocab":7}}"#).err(), Some(VocabError::NoEntries));
    assert_eq!(load_tokenizer_json(r#"{"model":"x"}"#).err(), Some(VocabError::NoEntries));
}

#[test]
fn malformed_tokenizer_text_is_refused() {
    assert_eq!(load_tokenizer_json("{").err(), Some(VocabError::Malformed));
    assert_eq!(load_tokenizer_json("").err(), Some(VocabError::Malformed));
    assert_eq!(load_tokenizer_json(r#"{"a":}"#).err(), Some(VocabError::Malformed));
}

#[test]
fn json_is_copied_variant_by_variant() {
    match parse_json(r#"{"n":null,"t":true,"u":7,"f":-2,"s":"x","a":[1]}"#).unwrap() {
        Json::Object(members) => {
            let keys: Vec<&str> = members.iter().map(|m| m.0.as_str()).collect();
            assert_eq!(keys, vec!["a", "f", "n", "s", "t", "u"]);
            assert!(matches!(&members[0].1, Json::Array(items) if matches!(items[0], Json::Number(Some(1)))));
            assert!(matches!(members[1].1, Json::Number(None)));
            assert!(matches!(members[2].1, Json::Null));
            assert!(matches!(&members[3].1, Json::Text(s) if s == "x"));
            assert!(matches!(members[4].1, Json::Bool(true)));
            assert!(matches!(members[5].1, Json::Number(Some(7))));
        }
        other => panic!("not an object: {:?}", other),
    }
}
