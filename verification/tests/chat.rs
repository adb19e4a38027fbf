use mentat::chat::{
    classify_input, clean_token, format_llama2_chat, mock_reply, mock_reply_for_lowercase, ChatInput,
};

#[test]
fn format_first_prompt() {
    assert_eq!(
        format_llama2_chat(&[], "Hi"),
        "<s>[INST] <<SYS>>\nYou are a helpful, respectful and honest assistant.\n<</SYS>>\n\nHi [/INST]"
    );
}

#[test]
fn format_prompt_with_history() {
    let history = vec![
        ("Hi".to_string(), "Hello!".to_string()),
        ("Who?".to_string(), "Mentat.".to_string()),
    ];
    assert_eq!(
        format_llama2_chat(&history, "Thanks"),
        "<s>[INST] <<SYS>>\nYou are a helpful, respectful and honest assistant.\n<</SYS>>\n\nHi [/INST] Hello! </s>\
         <s>[INST] Who? [/INST] Mentat. </s><s>[INST] Thanks [/INST]"
    );
}

#[test]
fn clean_token_cases() {
    assert_eq!(clean_token("<0x41>"), "A");
    assert_eq!(clean_token("<0x0A>"), "\n");
    assert_eq!(clean_token("<0x+f>"), "\u{f}");
    assert_eq!(clean_token("<0xe9>"), "é");
    assert_eq!(clean_token("<0xZZ>"), "<0xZZ>");
    assert_eq!(clean_token("<0x4>"), "<0x4>");
    assert_eq!(clean_token("<0x\u{e9}>"), "<0x\u{e9}>");
    assert_eq!(clean_token("\u{2581}the\u{2581}cat"), " the cat");
    assert_eq!(clean_token("plain"), "plain");
}

#[test]
fn classify_chat_input() {
    assert_eq!(classify_input("  EXIT \n"), ChatInput::Quit);
    assert_eq!(classify_input("Quit"), ChatInput::Quit);
    assert_eq!(classify_input(" \t\n"), ChatInput::Skip);
    assert_eq!(classify_input("  hello there \n"), ChatInput::Message("hello there".to_string()));
    assert_eq!(classify_input("exits"), ChatInput::Message("exits".to_string()));
}

#[test]
fn mock_replies() {
    assert!(mock_reply("HELLO").starts_with("Hello! I am Mentat"));
    assert!(mock_reply("What is your NAME").starts_with("I am Mentat, an AI model"));
    assert!(mock_reply("Tell me about Rust").starts_with("Rust is excellent"));
    assert!(mock_reply("use a TOOL").starts_with("I have access"));
    assert!(mock_reply("2 + 2 = ?").starts_with("Interesting point."));
}

#[test]
fn cleaned_tokens_show_no_mark() {
    for token in ["\u{2581}", "\u{2581}\u{2581}a", "<0x41>", "a\u{2581}"] {
        assert!(!clean_token(token).contains('\u{2581}'));
    }
}

#[test]
fn mock_replies_for_lowercased_prompts() {
    assert!(mock_reply_for_lowercase("tell me about rust").starts_with("Rust is excellent"));
    assert!(mock_reply_for_lowercase("TELL ME ABOUT RUST").starts_with("Interesting point"));
    assert!(mock_reply("TELL ME ABOUT RUST").starts_with("Rust is excellent"));
    assert!(mock_reply_for_lowercase("what is your name").starts_with("I am Mentat"));
    assert!(mock_reply_for_lowercase("any agents?").starts_with("I have access"));
}

#[test]
fn prompt_extends_with_each_exchange() {
    let first = format_llama2_chat(&[], "Hi");
    let second = format_llama2_chat(&[("Hi".to_string(), "Hello.".to_string())], "Bye");
    assert_eq!(second, format!("{} Hello. </s><s>[INST] Bye [/INST]", first));
    let h = vec![("Hi".to_string(), "Hello.".to_string()), ("Bye".to_string(), "Ciao.".to_string())];
    assert_eq!(format_llama2_chat(&h, "Again"), format!("{} Ciao. </s><s>[INST] Again [/INST]", second));
}
