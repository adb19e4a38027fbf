use mentat::tokenizer::bpe::BpeTokenizer;
use mentat::tokenizer::vocab::VocabField;

#[test]
fn test_bpe_basic_encode_decode() {
    let mut tokenizer = BpeTokenizer::new();

    // Seed basic chars
    tokenizer.vocab.insert("h".to_string(), 1);
    tokenizer.id_to_token.insert(1, "h".to_string());
    tokenizer.vocab.insert("e".to_string(), 2);
    tokenizer.id_to_token.insert(2, "e".to_string());
    tokenizer.vocab.insert("l".to_string(), 3);
    tokenizer.id_to_token.insert(3, "l".to_string());
    tokenizer.vocab.insert("o".to_string(), 4);
    tokenizer.id_to_token.insert(4, "o".to_string());

    // Seed merged tokens
    tokenizer.vocab.insert("he".to_string(), 5);
    tokenizer.id_to_token.insert(5, "he".to_string());
    tokenizer.merges.insert((1, 2), 5); // 'h' + 'e' -> 'he'

    tokenizer.vocab.insert("ll".to_string(), 6);
    tokenizer.id_to_token.insert(6, "ll".to_string());
    tokenizer.merges.insert((3, 3), 6); // 'l' + 'l' -> 'll'

    let encoded = tokenizer.encode("hello");
    // Expected: 'he' (5), 'll' (6), 'o' (4)
    assert_eq!(encoded, vec![5, 6, 4]);

    let decoded = tokenizer.decode(&encoded);
    assert_eq!(decoded, "hello");
}

#[test]
fn test_special_tokens() {
    let mut tokenizer = BpeTokenizer::new();
    tokenizer.add_special_token("<think>", 100);
    tokenizer.add_special_token("</think>", 101);

    assert_eq!(tokenizer.vocab.get("<think>"), Some(&100));
    assert_eq!(tokenizer.decode(&[100, 101]), "<think></think>");
}

fn hello_tokenizer() -> BpeTokenizer {
    let mut t = BpeTokenizer::new();
    for (s, id) in [("h", 1), ("e", 2), ("l", 3), ("o", 4), ("he", 5), ("ll", 6), ("hell", 7)] {
        t.vocab.insert(s.to_string(), id);
        t.id_to_token.insert(id, s.to_string());
    }
    t.merges.insert((1, 2), 5);
    t.merges.insert((3, 3), 6);
    t.merges.insert((5, 6), 7);
    t
}

#[test]
fn encode_merges_until_no_rule_applies() {
    let t = hello_tokenizer();
    // First pass: he ll o; second pass: hell o.
    assert_eq!(t.encode("hello"), vec![7, 4]);
    assert_eq!(t.decode(&t.encode("hello")), "hello");
}

#[test]
fn encode_unknown_characters_as_zero() {
    let t = hello_tokenizer();
    assert_eq!(t.encode("hx"), vec![1, 0]);
    assert_eq!(t.encode(""), Vec::<u32>::new());
}

#[test]
fn decode_skips_unknown_ids() {
    let t = hello_tokenizer();
    assert_eq!(t.decode(&[1, 999, 4]), "ho");
}

#[test]
fn merge_pass_scans_left_to_right() {
    let mut t = BpeTokenizer::new();
    t.vocab.insert("l".to_string(), 3);
    t.merges.insert((3, 3), 6);
    // "lll": the first pair merges, the third l stays.
    assert_eq!(t.encode("lll"), vec![6, 3]);
}

#[test]
fn byte_fallback_tokenizer() {
    let t = BpeTokenizer::byte_fallback();
    assert_eq!(t.vocab.get("a"), Some(&97));
    assert_eq!(t.vocab.get("\\xff"), Some(&255));
    assert_eq!(t.vocab.get("\\x80"), Some(&128));
    assert_eq!(t.vocab.get("</s>"), Some(&257));
    assert_eq!(t.id_to_token.get(&0).map(|s| s.as_str()), Some("<unk>"));
    assert_eq!(t.id_to_token.get(&200).map(|s| s.as_str()), Some("\\xc8"));
    assert_eq!(t.special_tokens.get("<think>"), Some(&258));
    assert_eq!(t.encode("hi"), vec![104, 105]);
    assert_eq!(t.decode(&[256, 104, 105, 257]), "<s>hi</s>");
    assert_eq!(t.stop_token(), Some(257));
}

#[test]
fn tokenizer_from_json_vocab() {
    let entries = vec![
        ("a".to_string(), Some(5)),
        ("b".to_string(), None),
        ("c".to_string(), Some(4294967297)),
    ];
    let t = BpeTokenizer::from_tokenizer_json(VocabField::Object(entries), VocabField::Missing);
    assert_eq!(t.vocab.get("a"), Some(&5));
    assert_eq!(t.vocab.get("b"), None);
    // Ids are cut to 32 bits.
    assert_eq!(t.vocab.get("c"), Some(&1));
    assert_eq!(t.id_to_token.get(&1).map(|s| s.as_str()), Some("c"));
    assert_eq!(t.stop_token(), Some(257));
}

#[test]
fn tokenizer_json_member_choice() {
    let top = vec![("x".to_string(), Some(9))];
    // model.vocab present but not an object: nothing is loaded, the fallback is used.
    let t = BpeTokenizer::from_tokenizer_json(VocabField::NotObject, VocabField::Object(top.clone()));
    assert_eq!(t.vocab.get("x"), Some(&120));
    // model.vocab missing: the top-level vocab is used.
    let t = BpeTokenizer::from_tokenizer_json(VocabField::Missing, VocabField::Object(top));
    assert_eq!(t.vocab.get("x"), Some(&9));
    let t = BpeTokenizer::from_tokenizer_json(VocabField::Missing, VocabField::NotObject);
    assert_eq!(t.vocab.get("<unk>"), Some(&0));
}

#[test]
fn display_and_reply_text() {
    let mut t = BpeTokenizer::new();
    t.id_to_token.insert(1, "\u{2581}Hello".to_string());
    t.id_to_token.insert(2, "<0x21>".to_string());
    assert_eq!(t.display_token(1), " Hello");
    assert_eq!(t.display_token(2), "!");
    assert_eq!(t.display_token(4096), "[4096]");
    assert_eq!(t.reply_text(&[1, 3, 2]), " Hello!");
}

#[test]
fn byte_fallback_round_trips_ascii() {
    let t = BpeTokenizer::byte_fallback();
    let text = "Hello, world! <think> 42\n";
    let ids = t.encode(text);
    assert_eq!(ids.len(), text.len());
    assert_eq!(t.decode(&ids), text);
}

#[test]
fn demo_tokenizer_for_hello() {
    let t = BpeTokenizer::for_demo("hello");
    assert_eq!(t.vocab.get("h"), Some(&1));
    assert_eq!(t.vocab.get("e"), Some(&2));
    assert_eq!(t.vocab.get("l"), Some(&3));
    assert_eq!(t.vocab.get("o"), Some(&4));
    assert_eq!(t.vocab.get("he"), Some(&5));
    assert_eq!(t.vocab.get("ll"), Some(&6));
    assert_eq!(t.vocab.get("<think>"), Some(&100));
    assert_eq!(t.special_tokens.get("<think>"), Some(&100));
    assert_eq!(t.id_to_token.get(&6).map(|s| s.as_str()), Some("ll"));
    assert_eq!(t.encode("hello"), vec![5, 6, 4]);
    assert_eq!(t.decode(&[5, 6, 4]), "hello");
}

#[test]
fn demo_tokenizer_without_merge_letters() {
    let t = BpeTokenizer::for_demo("abca");
    assert_eq!(t.vocab.get("a"), Some(&1));
    assert_eq!(t.vocab.get("c"), Some(&3));
    assert_eq!(t.vocab.get("he"), None);
    assert_eq!(t.vocab.get("ll"), None);
    assert_eq!(t.encode("abca"), vec![1, 2, 3, 1]);
    let only_l = BpeTokenizer::for_demo("l");
    assert_eq!(only_l.vocab.get("ll"), Some(&2));
    assert_eq!(only_l.encode("ll"), vec![2]);
}

#[test]
fn tokenizer_from_json_text_members() {
    let t = BpeTokenizer::tokenizer_from_json_text(Some(
        r#"{"model": {"type": "BPE", "vocab": {"a": 5, "b": 6, "x": -1, "y": "z"}}, "vocab": {"q": 1}}"#,
    ));
    assert_eq!(t.vocab.get("a"), Some(&5));
    assert_eq!(t.vocab.get("b"), Some(&6));
    assert_eq!(t.vocab.get("x"), None);
    assert_eq!(t.vocab.get("y"), None);
    assert_eq!(t.vocab.get("q"), None);
    assert_eq!(t.id_to_token.get(&6).map(|s| s.as_str()), Some("b"));

    let top = BpeTokenizer::tokenizer_from_json_text(Some(r#"{"vocab": {"q": 1}}"#));
    assert_eq!(top.vocab.get("q"), Some(&1));
    assert_eq!(top.vocab.get("</s>"), None);

    for fallback in [Some(r#"{"model": {"vocab": [1, 2]}, "vocab": {"q": 1}}"#), Some("not json"), Some("[1]"), None] {
        let t = BpeTokenizer::tokenizer_from_json_text(fallback);
        assert_eq!(t.vocab.get("q"), Some(&113));
        assert_eq!(t.vocab.get("</s>"), Some(&257));
        assert_eq!(t.vocab.get("a"), Some(&97));
    }
}
