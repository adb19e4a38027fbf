use mentat::tokenizer::parser::{HarmonyParser, ParsedBlock};

#[test]
fn test_parse_basic_text() {
    let input = "Hello, how can I help you today?";
    let blocks = HarmonyParser::parse(input);

    assert_eq!(blocks.len(), 1);
    assert_eq!(
        blocks[0],
        ParsedBlock::Text("Hello, how can I help you today?".to_string())
    );
}

#[test]
fn test_parse_think_block() {
    let input = "<think>I need to add 2 and 2.</think>The answer is 4.";
    let blocks = HarmonyParser::parse(input);

    assert_eq!(blocks.len(), 2);
    assert_eq!(
        blocks[0],
        ParsedBlock::Thought("I need to add 2 and 2.".to_string())
    );
    assert_eq!(blocks[1], ParsedBlock::Text("The answer is 4.".to_string()));
}

#[test]
fn test_parse_tool_call() {
    let input = "Let me calculate that for you.\n<python>print(2 + 2)</python>\nDone.";
    let blocks = HarmonyParser::parse(input);

    assert_eq!(blocks.len(), 3);
    assert_eq!(
        blocks[0],
        ParsedBlock::Text("Let me calculate that for you.\n".to_string())
    );
    assert_eq!(
        blocks[1],
        ParsedBlock::ToolCall {
            tool_name: "python".to_string(),
            arguments: "print(2 + 2)".to_string(),
        }
    );
    assert_eq!(blocks[2], ParsedBlock::Text("\nDone.".to_string()));
}

#[test]
fn parse_blank_text_gives_no_block() {
    assert_eq!(HarmonyParser::parse(" \n\t "), Vec::<ParsedBlock>::new());
    assert_eq!(HarmonyParser::parse(""), Vec::<ParsedBlock>::new());
}

#[test]
fn parse_unclosed_think_is_dropped() {
    let blocks = HarmonyParser::parse("Hi <think>never closed");
    assert_eq!(blocks, vec![ParsedBlock::Text("Hi ".to_string())]);
}

#[test]
fn parse_unclosed_tool_call_runs_to_end() {
    let blocks = HarmonyParser::parse("<browser>https://example.com");
    assert_eq!(
        blocks,
        vec![ParsedBlock::ToolCall {
            tool_name: "browser".to_string(),
            arguments: "https://example.com".to_string(),
        }]
    );
}

#[test]
fn parse_file_patcher_call_and_plain_tags() {
    let blocks = HarmonyParser::parse("a <b> c<file_patcher>READ x</file_patcher><think><python>1</think>");
    assert_eq!(
        blocks,
        vec![
            ParsedBlock::Text("a <b> c".to_string()),
            ParsedBlock::ToolCall {
                tool_name: "file_patcher".to_string(),
                arguments: "READ x".to_string(),
            },
            ParsedBlock::Thought("<python>1".to_string()),
        ]
    );
}

#[test]
fn parse_tool_call_keeps_other_closing_tags() {
    let blocks = HarmonyParser::parse("<python>x</browser>y</python>");
    assert_eq!(
        blocks,
        vec![ParsedBlock::ToolCall {
            tool_name: "python".to_string(),
            arguments: "x</browser>y".to_string(),
        }]
    );
}

#[test]
fn parse_reads_back_rendered_blocks() {
    let blocks = vec![
        ParsedBlock::Text("Hi ".to_string()),
        ParsedBlock::Thought("plan it".to_string()),
        ParsedBlock::ToolCall { tool_name: "browser".to_string(), arguments: "example.org".to_string() },
        ParsedBlock::ToolCall { tool_name: "python".to_string(), arguments: "print(1)".to_string() },
        ParsedBlock::Text(" done".to_string()),
        ParsedBlock::Thought(String::new()),
    ];
    let text = "Hi <think>plan it</think><browser>example.org</browser><python>print(1)</python> done<think></think>";
    assert_eq!(HarmonyParser::parse(text), blocks);
}
