//! The chat front end's text handling: prompt formatting, cleaning of
//! token strings for display, reading the user's input, and the canned
//! replies of the offline mode.

use vstd::prelude::*;
use vstd::utf8::encode_utf8;

use crate::text::{
    chars_of, contains, eq_ignore_ascii_case, equal_ignoring_ascii_case, find, push_char, trim,
    trimmed, string_from_chars,
};

verus! {

broadcast use vstd::string::group_string_axioms;

/// The system prompt placed in the first turn.
pub open spec fn system_prompt() -> Seq<char> {
    "You are a helpful, respectful and honest assistant."@
}

/// The opening of the first turn, up to the first user message.
pub open spec fn first_turn_head() -> Seq<char> {
    "<s>[INST] <<SYS>>\n"@ + system_prompt() + "\n<</SYS>>\n\n"@
}

/// One finished exchange of the history, in the Llama 2 chat format; the
/// first one carries the system prompt.
pub open spec fn llama2_turn(first: bool, user: Seq<char>, assistant: Seq<char>) -> Seq<char> {
    if first {
        first_turn_head() + user + " [/INST] "@ + assistant + " </s>"@
    } else {
        "<s>[INST] "@ + user + " [/INST] "@ + assistant + " </s>"@
    }
}

/// The exchanges of `history`, in order.
pub open spec fn llama2_history(history: Seq<(Seq<char>, Seq<char>)>) -> Seq<char>
    decreases history.len(),
{
    if history.len() == 0 {
        Seq::empty()
    } else {
        llama2_history(history.drop_last()) + llama2_turn(
            history.len() == 1,
            history.last().0,
            history.last().1,
        )
    }
}

/// The prompt for `message` after `history`, in the Llama 2 chat format.
pub open spec fn llama2_prompt(history: Seq<(Seq<char>, Seq<char>)>, message: Seq<char>) -> Seq<
    char,
> {
    if history.len() == 0 {
        first_turn_head() + message + " [/INST]"@
    } else {
        llama2_history(history) + "<s>[INST] "@ + message + " [/INST]"@
    }
}

/// The history with each string taken as its characters.
pub open spec fn history_view(history: Seq<(String, String)>) -> Seq<(Seq<char>, Seq<char>)> {
    history.map_values(|p: (String, String)| (p.0@, p.1@))
}

fn append_first_turn_head(prompt: &mut String)
    ensures
        final(prompt)@ == old(prompt)@ + first_turn_head(),
{
    prompt.append("<s>[INST] <<SYS>>\n");
    prompt.append("You are a helpful, respectful and honest assistant.");
    prompt.append("\n<</SYS>>\n\n");
    assert(final(prompt)@ =~= old(prompt)@ + first_turn_head());
}

/// Formats a conversation as a Llama 2 chat prompt: the finished
/// exchanges of `history` (user message, assistant reply), each closed
/// with `</s>`, then the open turn for `current_user_msg`. The system
/// prompt goes in the first turn.
pub fn format_llama2_chat(history: &[(String, String)], current_user_msg: &str) -> (prompt: String)
    ensures
        prompt@ == llama2_prompt(history_view(history@), current_user_msg@),
{
    let mut prompt = String::new();
    if history.len() == 0 {
        append_first_turn_head(&mut prompt);
        prompt.append(current_user_msg);
        prompt.append(" [/INST]");
        assert(prompt@ =~= llama2_prompt(history_view(history@), current_user_msg@));
        return prompt;
    }
    let mut i: usize = 0;
    while i < history.len()
        invariant
            i <= history.len(),
            prompt@ == llama2_history(history_view(history@.take(i as int))),
        decreases history.len() - i,
    {
        let ghost before = prompt@;
        let (user, assistant) = (&history[i].0, &history[i].1);
        if i == 0 {
            append_first_turn_head(&mut prompt);
        } else {
            prompt.append("<s>[INST] ");
        }
        prompt.append(user.as_str());
        prompt.append(" [/INST] ");
        prompt.append(assistant.as_str());
        prompt.append(" </s>");
        proof {
            let h = history_view(history@.take(i + 1));
            assert(h.drop_last() =~= history_view(history@.take(i as int)));
            assert(h.last() == (user@, assistant@));
            assert(prompt@ =~= before + llama2_turn(i == 0, user@, assistant@));
        }
        i = i + 1;
    }
    assert(history@.take(history.len() as int) =~= history@);
    prompt.append("<s>[INST] ");
    prompt.append(current_user_msg);
    prompt.append(" [/INST]");
    assert(prompt@ =~= llama2_prompt(history_view(history@), current_user_msg@));
    prompt
}

/// The value of a hexadecimal digit, or -1 for any other character.
pub open spec fn hex_value(c: char) -> int {
    if '0' <= c && c <= '9' {
        c as int - 48
    } else if 'a' <= c && c <= 'f' {
        c as int - 87
    } else if 'A' <= c && c <= 'F' {
        c as int - 55
    } else {
        -1
    }
}

/// The value of a string of hexadecimal digits.
pub open spec fn hex_digits_value(d: Seq<char>) -> int
    decreases d.len(),
{
    if d.len() == 0 {
        0
    } else {
        hex_digits_value(d.drop_last()) * 16 + hex_value(d.last())
    }
}

/// The digits of an unsigned number: `d` without a leading `+` (a lone
/// `+` is kept, and then reads as no number).
pub open spec fn unsigned_digits(d: Seq<char>) -> Seq<char> {
    if d.len() > 1 && d[0] == '+' {
        d.skip(1)
    } else {
        d
    }
}

/// Whether every character of `d` is a hexadecimal digit.
pub open spec fn all_hex(d: Seq<char>) -> bool {
    forall|i: int| 0 <= i < d.len() ==> hex_value(#[trigger] d[i]) >= 0
}

/// How `u8::from_str_radix(d, 16)` reads `d`: an optional `+`, then at
/// least one hexadecimal digit, with a value that fits in a byte.
pub open spec fn parse_hex_byte(d: Seq<char>) -> Option<u8> {
    let digits = unsigned_digits(d);
    if digits.len() > 0 && all_hex(digits) && hex_digits_value(digits) <= 255 {
        Some(hex_digits_value(digits) as u8)
    } else {
        None
    }
}

/// The byte that a token of the form `<0xNN>` stands for: the token is six
/// bytes long in UTF-8, starts with `<0x`, ends with `>`, and what lies
/// between reads as a hexadecimal byte.
pub open spec fn byte_token_value(token: Seq<char>) -> Option<u8> {
    if token.len() >= 4 && token[0] == '<' && token[1] == '0' && token[2] == 'x' && token.last()
        == '>' && encode_utf8(token).len() == 6 {
        parse_hex_byte(token.subrange(3, token.len() - 1))
    } else {
        None
    }
}

/// SentencePiece's word-boundary mark `▁` (U+2581) shown as a space.
pub open spec fn unmark_space(c: char) -> char {
    if c == '\u{2581}' {
        ' '
    } else {
        c
    }
}

/// The display text of a token string: a byte token `<0xNN>` becomes the
/// character with code NN; any other token is kept, with each `▁`
/// replaced by a space.
pub open spec fn clean_token_text(token: Seq<char>) -> Seq<char> {
    match byte_token_value(token) {
        Some(b) => seq![b as char],
        None => token.map_values(|c: char| unmark_space(c)),
    }
}

fn hex_digit(c: char) -> (v: i32)
    ensures
        v == hex_value(c),
{
    if '0' <= c && c <= '9' {
        (c as u32 - 48) as i32
    } else if 'a' <= c && c <= 'f' {
        (c as u32 - 87) as i32
    } else if 'A' <= c && c <= 'F' {
        (c as u32 - 55) as i32
    } else {
        -1
    }
}

proof fn lemma_hex_value_nonneg(d: Seq<char>)
    requires
        forall|i: int| 0 <= i < d.len() ==> hex_value(#[trigger] d[i]) >= 0,
    ensures
        hex_digits_value(d) >= 0,
    decreases d.len(),
{
    if d.len() > 0 {
        assert forall|i: int| 0 <= i < d.drop_last().len() implies hex_value(
            #[trigger] d.drop_last()[i],
        ) >= 0 by {
            assert(d.drop_last()[i] == d[i]);
        }
        lemma_hex_value_nonneg(d.drop_last());
        assert(hex_value(d[d.len() - 1]) >= 0);
    }
}

/// Reads `v[from..to]` as `u8::from_str_radix(.., 16)` does.
fn hex_byte(v: &Vec<char>, from: usize, to: usize) -> (r: Option<u8>)
    requires
        from <= to <= v.len(),
    ensures
        r == parse_hex_byte(v@.subrange(from as int, to as int)),
{
    let ghost d = v@.subrange(from as int, to as int);
    let mut start = from;
    if to - from > 1 && v[from] == '+' {
        start = from + 1;
    }
    let ghost digits = v@.subrange(start as int, to as int);
    assert(digits =~= unsigned_digits(d));
    if start == to {
        return None;
    }
    let mut value: u32 = 0;
    let mut i = start;
    while i < to
        invariant
            start <= i <= to <= v.len(),
            digits == v@.subrange(start as int, to as int),
            digits == unsigned_digits(v@.subrange(from as int, to as int)),
            forall|j: int| start <= j < i ==> hex_value(#[trigger] v@[j]) >= 0,
            value as int == hex_digits_value(v@.subrange(start as int, i as int)),
            value <= 255,
        decreases to - i,
    {
        let h = hex_digit(v[i]);
        assert(v@.subrange(start as int, i + 1).drop_last() =~= v@.subrange(start as int, i as int));
        if h < 0 {
            assert(digits[i - start] == v@[i as int]);
            assert(!all_hex(digits));
            return None;
        }
        value = value * 16 + (h as u32);
        i = i + 1;
        assert(v@.subrange(start as int, i as int) =~= digits.take(i - start));
        if value > 255 {
            proof {
                if all_hex(digits) {
                    lemma_value_monotone(digits, i - start);
                }
            }
            return None;
        }
    }
    assert(v@.subrange(start as int, i as int) =~= digits);
    Some(value as u8)
}

/// Appending hexadecimal digits never lowers the value.
proof fn lemma_value_monotone(d: Seq<char>, n: int)
    requires
        0 <= n <= d.len(),
        forall|j: int| 0 <= j < d.len() ==> hex_value(#[trigger] d[j]) >= 0,
    ensures
        hex_digits_value(d.take(n)) <= hex_digits_value(d),
    decreases d.len(),
{
    if n < d.len() {
        let p = d.drop_last();
        assert forall|j: int| 0 <= j < p.len() implies hex_value(#[trigger] p[j]) >= 0 by {
            assert(p[j] == d[j]);
        }
        lemma_value_monotone(p, n);
        assert(p.take(n) =~= d.take(n));
        lemma_hex_value_nonneg(p);
        assert(hex_value(d[d.len() - 1]) >= 0);
    } else {
        assert(d.take(n) =~= d);
    }
}

proof fn lemma_encode_len_bounds(s: Seq<char>)
    ensures
        s.len() <= encode_utf8(s).len() <= 4 * s.len(),
    decreases s.len(),
{
    if s.len() > 0 {
        lemma_encode_len_bounds(s.drop_first());
        let e = vstd::utf8::encode_scalar(s[0] as u32);
        assert(1 <= e.len() <= 4);
    }
}

/// Cleans a token string for display: a byte token `<0xNN>` becomes the
/// character with code NN; otherwise each `▁` becomes a space.
pub fn clean_token(token: &str) -> (cleaned: String)
    ensures
        cleaned@ == clean_token_text(token@),
{
    let v = chars_of(token);
    let n = v.len();
    proof {
        lemma_encode_len_bounds(token@);
    }
    if n >= 4 && n <= 6 && v[0] == '<' && v[1] == '0' && v[2] == 'x' && v[n - 1] == '>'
        && token.len() == 6 {
        if let Some(b) = hex_byte(&v, 3, n - 1) {
            let mut s = String::new();
            push_char(&mut s, b as char);
            assert(byte_token_value(token@) == Some(b));
            assert(s@ =~= seq![b as char]);
            return s;
        }
    }
    let mut s = String::new();
    let mut i: usize = 0;
    while i < n
        invariant
            n == v.len(),
            v@ == token@,
            i <= n,
            s@ == v@.take(i as int).map_values(|c: char| unmark_space(c)),
        decreases n - i,
    {
        let c = v[i];
        if c == '\u{2581}' {
            push_char(&mut s, ' ');
        } else {
            push_char(&mut s, c);
        }
        i = i + 1;
        assert(s@ =~= v@.take(i as int).map_values(|c: char| unmark_space(c)));
    }
    assert(v@.take(n as int) =~= v@);
    s
}


/// What a line typed by the user asks for.
#[derive(Debug, Clone, PartialEq)]
pub enum ChatInput {
    /// `exit` or `quit`, in any ASCII case: end the session.
    Quit,
    /// Nothing but white space: ask again.
    Skip,
    /// A message for the model (the line without surrounding white space).
    Message(String),
}

/// `exit`.
pub open spec fn exit_word() -> Seq<char> {
    seq!['e', 'x', 'i', 't']
}

/// `quit`.
pub open spec fn quit_word() -> Seq<char> {
    seq!['q', 'u', 'i', 't']
}

/// Whether `input` is the answer for the line `line`: the line is trimmed;
/// `exit` or `quit` (ignoring ASCII case) end the session, an empty line
/// is skipped, anything else is a message.
pub open spec fn classifies_as(line: Seq<char>, input: ChatInput) -> bool {
    let t = trim(line);
    if eq_ignore_ascii_case(t, exit_word()) || eq_ignore_ascii_case(t, quit_word()) {
        input == ChatInput::Quit
    } else if t.len() == 0 {
        input == ChatInput::Skip
    } else {
        input matches ChatInput::Message(m) && m@ == t
    }
}

/// Reads a line typed by the user.
pub fn classify_input(line: &str) -> (input: ChatInput)
    ensures
        classifies_as(line@, input),
{
    let v = chars_of(line);
    let t = trimmed(&v);
    let exit: Vec<char> = vec!['e', 'x', 'i', 't'];
    let quit: Vec<char> = vec!['q', 'u', 'i', 't'];
    if equal_ignoring_ascii_case(&t, &exit) || equal_ignoring_ascii_case(&t, &quit) {
        ChatInput::Quit
    } else if t.len() == 0 {
        ChatInput::Skip
    } else {
        ChatInput::Message(string_from_chars(&t))
    }
}

/// What `str::to_lowercase` returns for `s`: the Unicode lowercase
/// mapping, character by character, with its special cases.
pub uninterp spec fn lowercase(s: Seq<char>) -> Seq<char>;

/// Lowercases a string.
///
/// Calls `str::to_lowercase`. The contract claims only that the result is
/// a function of the input (named `lowercase`); the Unicode mapping itself
/// is not stated.
#[verifier::external_body]
fn to_lowercase(s: &str) -> (r: String)
    ensures
        r@ == lowercase(s@),
{
    s.to_lowercase()
}

/// The greeting reply of the offline mode.
pub open spec fn greeting_reply() -> Seq<char> {
    "Hello! I am Mentat, a sovereign Rust-native reasoning assistant. How can I help you today?"@
}

/// The self-introduction reply of the offline mode.
pub open spec fn identity_reply() -> Seq<char> {
    "I am Mentat, an AI model running fully locally on your hardware. No external APIs used."@
}

/// The reply about Rust of the offline mode.
pub open spec fn rust_reply() -> Seq<char> {
    "Rust is excellent for AI! It gives me maximum memory control, safety, and performance without garbage collection."@
}

/// The reply about tools of the offline mode.
pub open spec fn tools_reply() -> Seq<char> {
    "I have access to local tools like a secure Python sandbox, a headless browser, and an atomic file patcher."@
}

/// The reply of the offline mode to anything else.
pub open spec fn default_reply() -> Seq<char> {
    "Interesting point. Since we are running in mock mode, I am simulating this conversation. Load a real Safetensors model to run mathematical inference!"@
}

/// The offline mode's reply to a lowercased prompt: the first topic that
/// the prompt mentions decides.
pub open spec fn mock_reply_for(lower: Seq<char>) -> Seq<char> {
    if contains(lower, seq!['h', 'e', 'l', 'l', 'o']) || contains(lower, seq!['h', 'i']) {
        greeting_reply()
    } else if contains(lower, seq!['w', 'h', 'o', ' ', 'a', 'r', 'e', ' ', 'y', 'o', 'u'])
        || contains(lower, seq!['n', 'a', 'm', 'e']) {
        identity_reply()
    } else if contains(lower, seq!['r', 'u', 's', 't']) {
        rust_reply()
    } else if contains(lower, seq!['a', 'g', 'e', 'n', 't']) || contains(
        lower,
        seq!['t', 'o', 'o', 'l'],
    ) {
        tools_reply()
    } else {
        default_reply()
    }
}

/// The canned reply of the offline (mock) chat to `prompt`, chosen by
/// what the lowercased prompt mentions.
pub fn mock_reply(prompt: &str) -> (reply: &'static str)
    ensures
        reply@ == mock_reply_for(lowercase(prompt@)),
{
    let lower = to_lowercase(prompt);
    mock_reply_for_lowercase(lower.as_str())
}

/// The canned reply for a prompt that is already lowercased.
pub fn mock_reply_for_lowercase(lower: &str) -> (reply: &'static str)
    ensures
        reply@ == mock_reply_for(lower@),
{
    let v = chars_of(lower);
    if find(&v, &vec!['h', 'e', 'l', 'l', 'o']) || find(&v, &vec!['h', 'i']) {
        "Hello! I am Mentat, a sovereign Rust-native reasoning assistant. How can I help you today?"
    } else if find(&v, &vec!['w', 'h', 'o', ' ', 'a', 'r', 'e', ' ', 'y', 'o', 'u']) || find(
        &v,
        &vec!['n', 'a', 'm', 'e'],
    ) {
        "I am Mentat, an AI model running fully locally on your hardware. No external APIs used."
    } else if find(&v, &vec!['r', 'u', 's', 't']) {
        "Rust is excellent for AI! It gives me maximum memory control, safety, and performance without garbage collection."
    } else if find(&v, &vec!['a', 'g', 'e', 'n', 't']) || find(&v, &vec!['t', 'o', 'o', 'l']) {
        "I have access to local tools like a secure Python sandbox, a headless browser, and an atomic file patcher."
    } else {
        "Interesting point. Since we are running in mock mode, I am simulating this conversation. Load a real Safetensors model to run mathematical inference!"
    }
}

/// A cleaned token never shows the word-boundary mark `▁`.
pub proof fn law_cleaned_token_has_no_mark(token: Seq<char>)
    ensures
        !clean_token_text(token).contains('\u{2581}'),
{
    let t = clean_token_text(token);
    assert forall|i: int| 0 <= i < t.len() implies t[i] != '\u{2581}' by {
        match byte_token_value(token) {
            Some(b) => {
                assert(t[i] == (b as char));
            },
            None => {
                assert(t[i] == unmark_space(token[i]));
            },
        }
    }
}

/// The prompt grows by appending: after one more exchange (`message`
/// answered by `reply`), the prompt for `next` is the prompt that was
/// given for `message`, then ` `, the reply and ` </s>`, then the turn for
/// `next`.
pub proof fn law_prompt_extends(
    history: Seq<(Seq<char>, Seq<char>)>,
    message: Seq<char>,
    reply: Seq<char>,
    next: Seq<char>,
)
    ensures
        llama2_prompt(history.push((message, reply)), next) == llama2_prompt(history, message)
            + " "@ + reply + " </s>"@ + "<s>[INST] "@ + next + " [/INST]"@,
{
    reveal_strlit(" [/INST]");
    reveal_strlit(" [/INST] ");
    reveal_strlit(" ");
    let h = history.push((message, reply));
    assert(h.drop_last() =~= history);
    assert(h.last() == (message, reply));
    if history.len() == 0 {
        assert(llama2_history(history) =~= Seq::<char>::empty());
        assert(llama2_history(h) =~= Seq::<char>::empty() + llama2_turn(true, message, reply));
    }
    assert(" [/INST] "@ =~= " [/INST]"@ + " "@);
}

} // verus!
