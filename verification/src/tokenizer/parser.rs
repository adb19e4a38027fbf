//! The parser for the Harmony response format: it splits a model's output
//! into plain text, reasoning chains (`<think>...</think>`) and tool calls
//! (`<python>`, `<file_patcher>`, `<browser>`).

use vstd::prelude::*;

use crate::text::{
    blank, chars_of, contains, is_blank, matches_at, occurs_at, push_char, starts_with, string_from_chars,
};

verus! {

/// One block of parsed model output.
#[derive(Debug, Clone, PartialEq)]
pub enum ParsedBlock {
    /// Plain text from the model.
    Text(String),
    /// A reasoning chain between `<think>` and `</think>`.
    Thought(String),
    /// A tool invocation such as `<python>print('hello')</python>`.
    ToolCall { tool_name: String, arguments: String },
}

/// A parsed block with its strings taken as character sequences.
pub enum SpecBlock {
    Text(Seq<char>),
    Thought(Seq<char>),
    ToolCall { tool_name: Seq<char>, arguments: Seq<char> },
}

impl View for ParsedBlock {
    type V = SpecBlock;

    open spec fn view(&self) -> SpecBlock {
        match self {
            ParsedBlock::Text(t) => SpecBlock::Text(t@),
            ParsedBlock::Thought(t) => SpecBlock::Thought(t@),
            ParsedBlock::ToolCall { tool_name, arguments } => SpecBlock::ToolCall {
                tool_name: tool_name@,
                arguments: arguments@,
            },
        }
    }
}

/// The views of a sequence of blocks.
pub open spec fn block_views(blocks: Seq<ParsedBlock>) -> Seq<SpecBlock> {
    blocks.map_values(|b: ParsedBlock| b@)
}

/// `think>`: what follows `<` in the tag that opens a reasoning chain.
pub open spec fn think_open() -> Seq<char> {
    seq!['t', 'h', 'i', 'n', 'k', '>']
}

/// `/think>`: what follows `<` in the tag that closes a reasoning chain.
pub open spec fn think_close() -> Seq<char> {
    seq!['/', 't', 'h', 'i', 'n', 'k', '>']
}

/// The name of tool kind `k`: `python` (0), `file_patcher` (1) or
/// `browser` (2).
pub open spec fn tool_name(k: int) -> Seq<char> {
    if k == 0 {
        seq!['p', 'y', 't', 'h', 'o', 'n']
    } else if k == 1 {
        seq!['f', 'i', 'l', 'e', '_', 'p', 'a', 't', 'c', 'h', 'e', 'r']
    } else {
        seq!['b', 'r', 'o', 'w', 's', 'e', 'r']
    }
}

/// What follows `<` in the tag that opens a call of tool `k`.
pub open spec fn tool_open(k: int) -> Seq<char> {
    tool_name(k).push('>')
}

/// What follows `<` in the tag that closes a call of tool `k`.
pub open spec fn tool_close(k: int) -> Seq<char> {
    seq!['/'] + tool_name(k).push('>')
}

/// Whether `s` begins with `<` followed by `tag`.
pub open spec fn at_tag(s: Seq<char>, tag: Seq<char>) -> bool {
    s.len() > 0 && s[0] == '<' && starts_with(s.skip(1), tag)
}

/// The block for accumulated text: none when the text is blank.
pub open spec fn flush_text(text: Seq<char>) -> Seq<SpecBlock> {
    if is_blank(text) {
        Seq::empty()
    } else {
        seq![SpecBlock::Text(text)]
    }
}

/// The blocks of `s`, read outside any tag, after the text `text` was
/// already read.
pub open spec fn parse_text(s: Seq<char>, text: Seq<char>) -> Seq<SpecBlock>
    decreases s.len(), 0int,
{
    if s.len() == 0 {
        flush_text(text)
    } else if at_tag(s, think_open()) {
        flush_text(text) + parse_thought(s.skip(think_open().len() + 1int), Seq::empty())
    } else if at_tag(s, tool_open(0)) {
        flush_text(text) + parse_tool(s.skip(tool_open(0).len() + 1int), 0, Seq::empty())
    } else if at_tag(s, tool_open(1)) {
        flush_text(text) + parse_tool(s.skip(tool_open(1).len() + 1int), 1, Seq::empty())
    } else if at_tag(s, tool_open(2)) {
        flush_text(text) + parse_tool(s.skip(tool_open(2).len() + 1int), 2, Seq::empty())
    } else {
        parse_text(s.skip(1), text.push(s[0]))
    }
}

/// The blocks of `s`, read inside a reasoning chain whose content so far
/// is `content`. A chain that is never closed yields no block.
pub open spec fn parse_thought(s: Seq<char>, content: Seq<char>) -> Seq<SpecBlock>
    decreases s.len(), 0int,
{
    if s.len() == 0 {
        Seq::empty()
    } else if at_tag(s, think_close()) {
        seq![SpecBlock::Thought(content)] + parse_text(
            s.skip(think_close().len() + 1int),
            Seq::empty(),
        )
    } else {
        parse_thought(s.skip(1), content.push(s[0]))
    }
}

/// The blocks of `s`, read inside a call of tool `k` whose arguments so
/// far are `args`. A call that is never closed runs to the end of the
/// input.
pub open spec fn parse_tool(s: Seq<char>, k: int, args: Seq<char>) -> Seq<SpecBlock>
    decreases s.len(), 0int,
{
    let call = SpecBlock::ToolCall { tool_name: tool_name(k), arguments: args };
    if s.len() == 0 {
        seq![call]
    } else if at_tag(s, tool_close(k)) {
        seq![call] + parse_text(s.skip(tool_close(k).len() + 1int), Seq::empty())
    } else {
        parse_tool(s.skip(1), k, args.push(s[0]))
    }
}

/// The blocks of a whole model output.
pub open spec fn parse_output(input: Seq<char>) -> Seq<SpecBlock> {
    parse_text(input, Seq::empty())
}

/// Where the parser is: outside tags (0), in a reasoning chain (1), or in
/// a call of tool `k` (2 + k).
spec fn resume(mode: int, s: Seq<char>, text: Seq<char>, content: Seq<char>) -> Seq<SpecBlock> {
    if mode == 0 {
        parse_text(s, text)
    } else if mode == 1 {
        parse_thought(s, content)
    } else {
        parse_tool(s, mode - 2, content)
    }
}

fn tool_name_string(k: u8) -> (s: String)
    requires
        k < 3,
    ensures
        s@ == tool_name(k as int),
{
    if k == 0 {
        string_from_chars(&vec!['p', 'y', 't', 'h', 'o', 'n'])
    } else if k == 1 {
        string_from_chars(&vec!['f', 'i', 'l', 'e', '_', 'p', 'a', 't', 'c', 'h', 'e', 'r'])
    } else {
        string_from_chars(&vec!['b', 'r', 'o', 'w', 's', 'e', 'r'])
    }
}

fn tag_chars(k: u8, closing: bool) -> (v: Vec<char>)
    requires
        k < 3,
    ensures
        closing ==> v@ == tool_close(k as int),
        !closing ==> v@ == tool_open(k as int),
{
    let mut v: Vec<char> = Vec::new();
    if closing {
        v.push('/');
    }
    if k == 0 {
        v.append(&mut vec!['p', 'y', 't', 'h', 'o', 'n', '>']);
    } else if k == 1 {
        v.append(&mut vec!['f', 'i', 'l', 'e', '_', 'p', 'a', 't', 'c', 'h', 'e', 'r', '>']);
    } else {
        v.append(&mut vec!['b', 'r', 'o', 'w', 's', 'e', 'r', '>']);
    }
    assert(closing ==> v@ =~= tool_close(k as int));
    assert(!closing ==> v@ =~= tool_open(k as int));
    v
}

/// A parser for the Harmony response format.
pub struct HarmonyParser;

impl HarmonyParser {
    /// Parses a model's output into blocks.
    ///
    /// Outside tags, characters accumulate as text; `<think>`,
    /// `<python>`, `<file_patcher>` and `<browser>` end the text (which
    /// becomes a `Text` block unless it is blank) and open a reasoning
    /// chain or a tool call. A chain ends at `</think>` and becomes a
    /// `Thought`; a chain that is never closed is dropped. A tool call ends
    /// at its closing tag or at the end of the input and becomes a
    /// `ToolCall`. Inside a chain or a call, other tags are plain
    /// characters.
    pub fn parse(input: &str) -> (blocks: Vec<ParsedBlock>)
        ensures
            block_views(blocks@) == parse_output(input@),
    {
        let v = chars_of(input);
        let think_o: Vec<char> = vec!['t', 'h', 'i', 'n', 'k', '>'];
        let think_c: Vec<char> = vec!['/', 't', 'h', 'i', 'n', 'k', '>'];
        let mut blocks: Vec<ParsedBlock> = Vec::new();
        let mut current_text = String::new();
        let mut content = String::new();
        let mut mode: u8 = 0;
        let mut i: usize = 0;
        assert(v@.skip(0) =~= v@);
        while i < v.len()
            invariant
                v@ == input@,
                think_o@ == think_open(),
                think_c@ == think_close(),
                i <= v.len(),
                mode < 5,
                mode != 0 ==> current_text@ == Seq::<char>::empty(),
                block_views(blocks@) + resume(mode as int, v@.skip(i as int), current_text@, content@)
                    == parse_output(input@),
            decreases v.len() - i,
        {
            let ghost s = v@.skip(i as int);
            let ghost before = block_views(blocks@);
            assert(s.skip(1) =~= v@.skip(i + 1));
            let c = v[i];
            if mode == 0 {
                if c == '<' && matches_at(&v, i + 1, &think_o) {
                    assert(at_tag(s, think_open())) by {
                        assert(s.skip(1).subrange(0, 6) =~= v@.subrange(i + 1, i + 7));
                    }
                    assert(s.skip(7) =~= v@.skip(i + 7));
                    let is_blank_text = blank(&current_text);
                    if !is_blank_text {
                        let ghost old_views = block_views(blocks@);
                        blocks.push(ParsedBlock::Text(current_text.clone()));
                        assert(block_views(blocks@) =~= old_views + flush_text(current_text@));
                    } else {
                        assert(block_views(blocks@) =~= before + flush_text(current_text@));
                    }
                    current_text = String::new();
                    content = String::new();
                    mode = 1;
                    i = i + 7;
                    continue;
                }
                assert(!at_tag(s, think_open())) by {
                    if at_tag(s, think_open()) {
                        assert(v@.subrange(i + 1, i + 7) =~= s.skip(1).subrange(0, 6));
                    }
                }
                let mut k: u8 = 0;
                let mut opened = false;
                while k < 3 && !opened
                    invariant
                        k <= 3,
                        s == v@.skip(i as int),
                        i < v.len(),
                        c == v@[i as int],
                        !opened ==> forall|j: int| 0 <= j < k ==> !at_tag(s, #[trigger] tool_open(j)),
                        opened ==> k >= 1 && at_tag(s, tool_open(k - 1)) && forall|j: int|
                            0 <= j < k - 1 ==> !at_tag(s, #[trigger] tool_open(j)),
                    decreases 3 - k + (if opened { 0int } else { 1int }),
                {
                    let tag = tag_chars(k, false);
                    if c == '<' && matches_at(&v, i + 1, &tag) {
                        assert(at_tag(s, tool_open(k as int))) by {
                            assert(s.skip(1).subrange(0, tag@.len() as int) =~= v@.subrange(
                                i + 1,
                                i + 1 + tag@.len(),
                            ));
                        }
                        opened = true;
                    } else {
                        assert(!at_tag(s, tool_open(k as int))) by {
                            if at_tag(s, tool_open(k as int)) {
                                assert(v@.subrange(i + 1, i + 1 + tag@.len()) =~= s.skip(
                                    1,
                                ).subrange(0, tag@.len() as int));
                            }
                        }
                    }
                    k = k + 1;
                }
                if opened {
                    let kind = k - 1;
                    let tag_len = tag_chars(kind, false).len();
                    assert(s.skip(1 + tag_len) =~= v@.skip(i + 1 + tag_len));
                    let is_blank_text = blank(&current_text);
                    if !is_blank_text {
                        let ghost old_views = block_views(blocks@);
                        blocks.push(ParsedBlock::Text(current_text.clone()));
                        assert(block_views(blocks@) =~= old_views + flush_text(current_text@));
                    } else {
                        assert(block_views(blocks@) =~= before + flush_text(current_text@));
                    }
                    current_text = String::new();
                    content = String::new();
                    mode = 2 + kind;
                    i = i + 1 + tag_len;
                    continue;
                }
                push_char(&mut current_text, c);
                i = i + 1;
            } else if mode == 1 {
                if c == '<' && matches_at(&v, i + 1, &think_c) {
                    assert(at_tag(s, think_close())) by {
                        assert(s.skip(1).subrange(0, 7) =~= v@.subrange(i + 1, i + 8));
                    }
                    assert(s.skip(8) =~= v@.skip(i + 8));
                    let ghost old_views = block_views(blocks@);
                    blocks.push(ParsedBlock::Thought(content.clone()));
                    assert(block_views(blocks@) =~= old_views + seq![SpecBlock::Thought(content@)]);
                    content = String::new();
                    mode = 0;
                    i = i + 8;
                    continue;
                }
                assert(!at_tag(s, think_close())) by {
                    if at_tag(s, think_close()) {
                        assert(v@.subrange(i + 1, i + 8) =~= s.skip(1).subrange(0, 7));
                    }
                }
                push_char(&mut content, c);
                i = i + 1;
            } else {
                let kind = mode - 2;
                let tag = tag_chars(kind, true);
                if c == '<' && matches_at(&v, i + 1, &tag) {
                    assert(at_tag(s, tool_close(kind as int))) by {
                        assert(s.skip(1).subrange(0, tag@.len() as int) =~= v@.subrange(
                            i + 1,
                            i + 1 + tag@.len(),
                        ));
                    }
                    assert(s.skip(tag@.len() + 1int) =~= v@.skip(i + 1 + tag@.len()));
                    let name = tool_name_string(kind);
                    let ghost old_views = block_views(blocks@);
                    blocks.push(ParsedBlock::ToolCall { tool_name: name, arguments: content });
                    assert(block_views(blocks@) =~= old_views + seq![
                        SpecBlock::ToolCall { tool_name: tool_name(kind as int), arguments: content@ },
                    ]);
                    content = String::new();
                    mode = 0;
                    i = i + 1 + tag.len();
                    continue;
                }
                assert(!at_tag(s, tool_close(kind as int))) by {
                    if at_tag(s, tool_close(kind as int)) {
                        assert(v@.subrange(i + 1, i + 1 + tag@.len()) =~= s.skip(1).subrange(
                            0,
                            tag@.len() as int,
                        ));
                    }
                }
                push_char(&mut content, c);
                i = i + 1;
            }
        }
        assert(v@.skip(i as int) =~= Seq::<char>::empty());
        if mode == 0 {
            let is_blank_text = blank(&current_text);
            if !is_blank_text {
                let ghost old_views = block_views(blocks@);
                let ghost text = current_text@;
                blocks.push(ParsedBlock::Text(current_text));
                assert(block_views(blocks@) =~= old_views + flush_text(text));
            }
        } else if mode >= 2 {
            let kind = mode - 2;
            let name = tool_name_string(kind);
            let ghost old_views = block_views(blocks@);
            blocks.push(ParsedBlock::ToolCall { tool_name: name, arguments: content });
            assert(block_views(blocks@) =~= old_views + seq![
                SpecBlock::ToolCall { tool_name: tool_name(kind as int), arguments: content@ },
            ]);
        }
        blocks
    }
}


/// A block as the parser can produce it: text is never blank, and a tool
/// call names one of the three tools.
pub open spec fn well_formed_block(b: SpecBlock) -> bool {
    match b {
        SpecBlock::Text(t) => !is_blank(t),
        SpecBlock::Thought(_) => true,
        SpecBlock::ToolCall { tool_name: name, arguments: _ } => name == tool_name(0) || name
            == tool_name(1) || name == tool_name(2),
    }
}

/// Every block of the sequence is well formed.
pub open spec fn all_well_formed(bs: Seq<SpecBlock>) -> bool {
    forall|i: int| 0 <= i < bs.len() ==> well_formed_block(#[trigger] bs[i])
}

proof fn lemma_concat_well_formed(a: Seq<SpecBlock>, b: Seq<SpecBlock>)
    requires
        all_well_formed(a),
        all_well_formed(b),
    ensures
        all_well_formed(a + b),
{
    assert forall|i: int| 0 <= i < (a + b).len() implies well_formed_block(#[trigger] (a + b)[i]) by {
        if i < a.len() {
            assert((a + b)[i] == a[i]);
        } else {
            assert((a + b)[i] == b[i - a.len()]);
        }
    }
}

proof fn lemma_resume_well_formed(mode: int, s: Seq<char>, text: Seq<char>, content: Seq<char>)
    requires
        0 <= mode < 5,
    ensures
        all_well_formed(resume(mode, s, text, content)),
    decreases s.len(),
{
    let empty = Seq::<char>::empty();
    if mode == 0 {
        if s.len() == 0 {
        } else if at_tag(s, think_open()) {
            lemma_resume_well_formed(1, s.skip(think_open().len() + 1int), empty, empty);
            lemma_concat_well_formed(
                flush_text(text),
                parse_thought(s.skip(think_open().len() + 1int), empty),
            );
        } else if at_tag(s, tool_open(0)) {
            lemma_resume_well_formed(2, s.skip(tool_open(0).len() + 1int), empty, empty);
            lemma_concat_well_formed(
                flush_text(text),
                parse_tool(s.skip(tool_open(0).len() + 1int), 0, empty),
            );
        } else if at_tag(s, tool_open(1)) {
            lemma_resume_well_formed(3, s.skip(tool_open(1).len() + 1int), empty, empty);
            lemma_concat_well_formed(
                flush_text(text),
                parse_tool(s.skip(tool_open(1).len() + 1int), 1, empty),
            );
        } else if at_tag(s, tool_open(2)) {
            lemma_resume_well_formed(4, s.skip(tool_open(2).len() + 1int), empty, empty);
            lemma_concat_well_formed(
                flush_text(text),
                parse_tool(s.skip(tool_open(2).len() + 1int), 2, empty),
            );
        } else {
            lemma_resume_well_formed(0, s.skip(1), text.push(s[0]), content);
        }
    } else if mode == 1 {
        if s.len() == 0 {
        } else if at_tag(s, think_close()) {
            lemma_resume_well_formed(0, s.skip(think_close().len() + 1int), empty, empty);
            lemma_concat_well_formed(
                seq![SpecBlock::Thought(content)],
                parse_text(s.skip(think_close().len() + 1int), empty),
            );
        } else {
            lemma_resume_well_formed(1, s.skip(1), text, content.push(s[0]));
        }
    } else {
        let k = mode - 2;
        let call = SpecBlock::ToolCall { tool_name: tool_name(k), arguments: content };
        assert(well_formed_block(call));
        if s.len() == 0 {
        } else if at_tag(s, tool_close(k)) {
            lemma_resume_well_formed(0, s.skip(tool_close(k).len() + 1int), empty, empty);
            lemma_concat_well_formed(
                seq![call],
                parse_text(s.skip(tool_close(k).len() + 1int), empty),
            );
        } else {
            lemma_resume_well_formed(mode, s.skip(1), text, content.push(s[0]));
        }
    }
}

/// Every block the parser produces is well formed: no text block is
/// blank, and every tool call names `python`, `file_patcher` or `browser`.
pub proof fn law_parse_blocks_well_formed(input: Seq<char>)
    ensures
        all_well_formed(parse_output(input)),
{
    lemma_resume_well_formed(0, input, Seq::empty(), Seq::empty());
}

proof fn lemma_plain_text(s: Seq<char>, text: Seq<char>)
    requires
        forall|i: int| 0 <= i < s.len() ==> s[i] != '<',
    ensures
        parse_text(s, text) == flush_text(text + s),
    decreases s.len(),
{
    if s.len() == 0 {
        assert(text + s =~= text);
    } else {
        assert(s[0] != '<');
        lemma_plain_text(s.skip(1), text.push(s[0]));
        assert(text.push(s[0]) + s.skip(1) =~= text + s);
    }
}

/// Output without `<` is plain text: it parses to one text block holding
/// all of it, or to no block when it is blank.
pub proof fn law_parse_plain_text(input: Seq<char>)
    requires
        forall|i: int| 0 <= i < input.len() ==> input[i] != '<',
    ensures
        parse_output(input) == flush_text(input),
{
    lemma_plain_text(input, Seq::empty());
    assert(Seq::<char>::empty() + input =~= input);
}

/// The text a block comes from: text as is, a reasoning chain between
/// `<think>` and `</think>`, a tool call between its opening and closing
/// tags.
pub open spec fn render_block(b: SpecBlock) -> Seq<char> {
    match b {
        SpecBlock::Text(t) => t,
        SpecBlock::Thought(c) => seq!['<'] + think_open() + c + seq!['<'] + think_close(),
        SpecBlock::ToolCall { tool_name: n, arguments: a } => seq!['<'] + n.push('>') + a + seq![
            '<',
            '/',
        ] + n.push('>'),
    }
}

/// The text of a sequence of blocks, one after the other.
pub open spec fn render(bs: Seq<SpecBlock>) -> Seq<char>
    decreases bs.len(),
{
    if bs.len() == 0 {
        Seq::empty()
    } else {
        render_block(bs[0]) + render(bs.skip(1))
    }
}

/// Whether `s` holds no `<`.
pub open spec fn tag_free(s: Seq<char>) -> bool {
    forall|i: int| 0 <= i < s.len() ==> s[i] != '<'
}

/// Whether a block can be written as text and read back: its contents
/// hold no `<`, a text block is not blank, and a tool call names one of
/// the three tools.
pub open spec fn renderable_block(b: SpecBlock) -> bool {
    match b {
        SpecBlock::Text(t) => tag_free(t) && !is_blank(t),
        SpecBlock::Thought(c) => tag_free(c),
        SpecBlock::ToolCall { tool_name: n, arguments: a } => tag_free(a) && (n == tool_name(0)
            || n == tool_name(1) || n == tool_name(2)),
    }
}

/// Whether every block is renderable and no two text blocks are adjacent
/// (adjacent texts would read back as one).
pub open spec fn renderable(bs: Seq<SpecBlock>) -> bool {
    &&& forall|i: int| 0 <= i < bs.len() ==> renderable_block(#[trigger] bs[i])
    &&& forall|i: int| 0 <= i < bs.len() - 1 ==> (#[trigger] bs[i] is Text ==> !(bs[i + 1] is Text))
}

proof fn lemma_renderable_tail(bs: Seq<SpecBlock>)
    requires
        renderable(bs),
        bs.len() > 0,
    ensures
        renderable(bs.skip(1)),
{
    let t = bs.skip(1);
    assert forall|i: int| 0 <= i < t.len() implies renderable_block(#[trigger] t[i]) by {
        assert(t[i] == bs[i + 1]);
    }
    assert forall|i: int| 0 <= i < t.len() - 1 implies (#[trigger] t[i] is Text ==> !(t[i
        + 1] is Text)) by {
        assert(t[i] == bs[i + 1]);
        assert(t[i + 1] == bs[i + 2]);
    }
}

/// Text without `<` is read as text.
proof fn lemma_text_run(t: Seq<char>, rest: Seq<char>, acc: Seq<char>)
    requires
        tag_free(t),
    ensures
        parse_text(t + rest, acc) == parse_text(rest, acc + t),
    decreases t.len(),
{
    if t.len() == 0 {
        assert(t + rest =~= rest);
        assert(acc + t =~= acc);
    } else {
        let s = t + rest;
        assert(s[0] == t[0]);
        assert(s.skip(1) =~= t.skip(1) + rest);
        lemma_text_run(t.skip(1), rest, acc.push(t[0]));
        assert(acc.push(t[0]) + t.skip(1) =~= acc + t);
    }
}

proof fn lemma_at_tag(tag: Seq<char>, rest: Seq<char>)
    ensures
        at_tag(seq!['<'] + tag + rest, tag),
        (seq!['<'] + tag + rest).skip(tag.len() + 1int) == rest,
{
    let s = seq!['<'] + tag + rest;
    assert(s.skip(1).subrange(0, tag.len() as int) =~= tag);
    assert(s.skip(tag.len() + 1int) =~= rest);
}

proof fn lemma_not_at_tag(s: Seq<char>, tag: Seq<char>, other: Seq<char>)
    requires
        s.len() > other.len(),
        other.len() > 0,
        tag.len() > 0,
        s.skip(1).subrange(0, other.len() as int) == other,
        other[0] != tag[0],
    ensures
        !at_tag(s, tag),
{
    if at_tag(s, tag) {
        assert(s.skip(1).subrange(0, tag.len() as int)[0] == s.skip(1)[0]);
        assert(s.skip(1).subrange(0, other.len() as int)[0] == s.skip(1)[0]);
    }
}

/// A reasoning chain without `<` is read up to its closing tag.
proof fn lemma_thought_run(c: Seq<char>, rest: Seq<char>, content: Seq<char>)
    requires
        tag_free(c),
    ensures
        parse_thought(c + seq!['<'] + think_close() + rest, content) == seq![
            SpecBlock::Thought(content + c),
        ] + parse_text(rest, Seq::empty()),
    decreases c.len(),
{
    if c.len() == 0 {
        assert(c + seq!['<'] + think_close() + rest =~= seq!['<'] + think_close() + rest);
        assert(content + c =~= content);
        lemma_at_tag(think_close(), rest);
    } else {
        let s = c + seq!['<'] + think_close() + rest;
        assert(s[0] == c[0]);
        assert(!at_tag(s, think_close()));
        assert(s.skip(1) =~= c.skip(1) + seq!['<'] + think_close() + rest);
        lemma_thought_run(c.skip(1), rest, content.push(c[0]));
        assert(content.push(c[0]) + c.skip(1) =~= content + c);
    }
}

/// A tool call whose arguments hold no `<` is read up to its closing tag.
proof fn lemma_tool_run(a: Seq<char>, k: int, rest: Seq<char>, args: Seq<char>)
    requires
        tag_free(a),
    ensures
        parse_tool(a + seq!['<'] + tool_close(k) + rest, k, args) == seq![
            SpecBlock::ToolCall { tool_name: tool_name(k), arguments: args + a },
        ] + parse_text(rest, Seq::empty()),
    decreases a.len(),
{
    if a.len() == 0 {
        assert(a + seq!['<'] + tool_close(k) + rest =~= seq!['<'] + tool_close(k) + rest);
        assert(args + a =~= args);
        lemma_at_tag(tool_close(k), rest);
    } else {
        let s = a + seq!['<'] + tool_close(k) + rest;
        assert(s[0] == a[0]);
        assert(!at_tag(s, tool_close(k)));
        assert(s.skip(1) =~= a.skip(1) + seq!['<'] + tool_close(k) + rest);
        lemma_tool_run(a.skip(1), k, rest, args.push(a[0]));
        assert(args.push(a[0]) + a.skip(1) =~= args + a);
    }
}

/// Reading blocks that do not start with text, after the text `acc`.
proof fn lemma_render_tagged(bs: Seq<SpecBlock>, acc: Seq<char>)
    requires
        renderable(bs),
        bs.len() > 0 ==> !(bs[0] is Text),
    ensures
        parse_text(render(bs), acc) == flush_text(acc) + bs,
    decreases bs.len(), 0int,
{
    if bs.len() == 0 {
        assert(flush_text(acc) + bs =~= flush_text(acc));
    } else {
        let rest = render(bs.skip(1));
        lemma_renderable_tail(bs);
        lemma_render_all(bs.skip(1));
        assert(renderable_block(bs[0]));
        match bs[0] {
            SpecBlock::Text(_) => {},
            SpecBlock::Thought(c) => {
                let s = seq!['<'] + think_open() + (c + seq!['<'] + think_close() + rest);
                assert(render(bs) =~= s);
                lemma_at_tag(think_open(), c + seq!['<'] + think_close() + rest);
                lemma_thought_run(c, rest, Seq::empty());
                assert(Seq::<char>::empty() + c =~= c);
            },
            SpecBlock::ToolCall { tool_name: n, arguments: a } => {
                let k: int = if n == tool_name(0) {
                    0
                } else if n == tool_name(1) {
                    1
                } else {
                    2
                };
                let tail = a + seq!['<'] + tool_close(k) + rest;
                let s = seq!['<'] + tool_open(k) + tail;
                assert(render(bs) =~= s);
                lemma_at_tag(tool_open(k), tail);
                assert(s.skip(1).subrange(0, tool_open(k).len() as int) =~= tool_open(k));
                lemma_not_at_tag(s, think_open(), tool_open(k));
                if k > 0 {
                    lemma_not_at_tag(s, tool_open(0), tool_open(k));
                }
                if k > 1 {
                    lemma_not_at_tag(s, tool_open(1), tool_open(k));
                }
                lemma_tool_run(a, k, rest, Seq::empty());
                assert(Seq::<char>::empty() + a =~= a);
            },
        }
        assert(bs =~= seq![bs[0]] + bs.skip(1));
        assert(flush_text(acc) + (seq![bs[0]] + bs.skip(1)) =~= flush_text(acc) + seq![bs[0]]
            + bs.skip(1));
    }
}

/// Reading back the text of renderable blocks.
proof fn lemma_render_all(bs: Seq<SpecBlock>)
    requires
        renderable(bs),
    ensures
        parse_text(render(bs), Seq::empty()) == bs,
    decreases bs.len(), 1int,
{
    if bs.len() > 0 && bs[0] is Text {
        let t = bs[0]->Text_0;
        assert(renderable_block(bs[0]));
        lemma_renderable_tail(bs);
        if bs.len() > 1 {
            assert(bs[0] is Text ==> !(bs[1] is Text));
            assert(bs.skip(1)[0] == bs[1]);
        }
        lemma_text_run(t, render(bs.skip(1)), Seq::empty());
        assert(Seq::<char>::empty() + t =~= t);
        lemma_render_tagged(bs.skip(1), t);
        assert(bs =~= seq![bs[0]] + bs.skip(1));
    } else {
        lemma_render_tagged(bs, Seq::empty());
        assert(flush_text(Seq::empty()) =~= Seq::<SpecBlock>::empty()) by {
            assert(is_blank(Seq::<char>::empty()));
        }
        assert(Seq::<SpecBlock>::empty() + bs =~= bs);
    }
}

/// The parser reads back what blocks are written as: for blocks whose
/// contents hold no `<`, with no blank text and no two texts side by side,
/// parsing their text (each reasoning chain between `<think>` tags, each
/// tool call between its tool's tags) gives the blocks again.
pub proof fn law_parse_reads_back_rendered_blocks(bs: Seq<SpecBlock>)
    requires
        renderable(bs),
    ensures
        parse_output(render(bs)) == bs,
{
    lemma_render_all(bs);
}

/// The closing tag of tool `k`, `</name>`.
pub open spec fn closing_tag(k: int) -> Seq<char> {
    seq!['<', '/'] + tool_name(k) + seq!['>']
}

proof fn lemma_closing_tag(k: int)
    requires
        0 <= k < 3,
    ensures
        closing_tag(k) == seq!['<'] + tool_close(k),
        closing_tag(k).len() > 2,
        closing_tag(k)[0] == '<',
        forall|d: int| 1 <= d < closing_tag(k).len() ==> #[trigger] closing_tag(k)[d] != '<',
{
    assert(closing_tag(k) =~= seq!['<'] + tool_close(k));
}

/// Inside a call of tool `k`, everything up to the first closing tag is
/// the call's arguments, whatever else it holds.
proof fn lemma_tool_args(a: Seq<char>, k: int, rest: Seq<char>, args: Seq<char>)
    requires
        0 <= k < 3,
        forall|i: int| 0 <= i < a.len() ==> !at_tag(#[trigger] (a + closing_tag(k) + rest).skip(i), tool_close(k)),
    ensures
        parse_tool(a + closing_tag(k) + rest, k, args) == seq![
            SpecBlock::ToolCall { tool_name: tool_name(k), arguments: args + a },
        ] + parse_text(rest, Seq::empty()),
    decreases a.len(),
{
    lemma_closing_tag(k);
    let s = a + closing_tag(k) + rest;
    if a.len() == 0 {
        assert(s =~= seq!['<'] + tool_close(k) + rest);
        assert(args + a =~= args);
        lemma_at_tag(tool_close(k), rest);
    } else {
        assert(s.skip(0) =~= s);
        assert(!at_tag(s, tool_close(k)));
        assert(s[0] == a[0]);
        let t = a.skip(1);
        assert(s.skip(1) =~= t + closing_tag(k) + rest);
        assert forall|i: int| 0 <= i < t.len() implies !at_tag(
            #[trigger] (t + closing_tag(k) + rest).skip(i),
            tool_close(k),
        ) by {
            assert((t + closing_tag(k) + rest).skip(i) =~= s.skip(i + 1));
            assert(!at_tag(s.skip(i + 1), tool_close(k)));
        }
        lemma_tool_args(t, k, rest, args.push(a[0]));
        assert(args.push(a[0]) + t =~= args + a);
    }
}

/// Where a text does not contain a tool's closing tag, no closing tag
/// starts inside it, even when the tag itself follows it.
proof fn lemma_no_early_close(a: Seq<char>, k: int, rest: Seq<char>, i: int)
    requires
        0 <= k < 3,
        0 <= i < a.len(),
        !contains(a, closing_tag(k)),
    ensures
        !at_tag((a + closing_tag(k) + rest).skip(i), tool_close(k)),
{
    lemma_closing_tag(k);
    let c = closing_tag(k);
    let s = a + c + rest;
    let u = s.skip(i);
    if at_tag(u, tool_close(k)) {
        assert(u.subrange(0, c.len() as int) =~= c) by {
            assert forall|d: int| 0 <= d < c.len() implies u[d] == c[d] by {
                if d > 0 {
                    assert(u.skip(1).subrange(0, tool_close(k).len() as int)[d - 1] == u[d]);
                }
            }
        }
        if i + c.len() <= a.len() {
            assert(a.subrange(i, i + c.len()) =~= c) by {
                assert forall|d: int| 0 <= d < c.len() implies a.subrange(i, i + c.len())[d]
                    == c[d] by {
                    assert(u[d] == s[i + d]);
                }
            }
            assert(occurs_at(a, i, c));
        } else {
            let d = a.len() - i;
            assert(u[d] == s[a.len() as int]);
            assert(s[a.len() as int] == c[0]);
            assert(u.subrange(0, c.len() as int)[d] == u[d]);
        }
    }
}

/// A tool call's arguments are exactly what stands between its tags:
/// for tool `k` and any text `a` that does not contain the tool's closing
/// tag (it may hold `<` and other tags), `<name>`, `a` and `</name>` parse
/// to the single call of `name` with arguments `a`.
pub proof fn law_tool_call_arguments_verbatim(k: int, a: Seq<char>)
    requires
        0 <= k < 3,
        !contains(a, closing_tag(k)),
    ensures
        parse_output(seq!['<'] + tool_name(k) + seq!['>'] + a + closing_tag(k)) == seq![
            SpecBlock::ToolCall { tool_name: tool_name(k), arguments: a },
        ],
{
    lemma_closing_tag(k);
    let tail = a + closing_tag(k) + Seq::<char>::empty();
    assert(tail =~= a + closing_tag(k));
    assert forall|i: int| 0 <= i < a.len() implies !at_tag(
        #[trigger] (a + closing_tag(k) + Seq::<char>::empty()).skip(i),
        tool_close(k),
    ) by {
        lemma_no_early_close(a, k, Seq::empty(), i);
    }
    lemma_tool_args(a, k, Seq::empty(), Seq::empty());
    assert(Seq::<char>::empty() + a =~= a);
    let s = seq!['<'] + tool_open(k) + tail;
    assert(seq!['<'] + tool_name(k) + seq!['>'] + a + closing_tag(k) =~= s);
    lemma_at_tag(tool_open(k), tail);
    assert(s.skip(1).subrange(0, tool_open(k).len() as int) =~= tool_open(k));
    lemma_not_at_tag(s, think_open(), tool_open(k));
    if k > 0 {
        lemma_not_at_tag(s, tool_open(0), tool_open(k));
    }
    if k > 1 {
        lemma_not_at_tag(s, tool_open(1), tool_open(k));
    }
    assert(parse_text(Seq::<char>::empty(), Seq::empty()) =~= Seq::<SpecBlock>::empty()) by {
        assert(is_blank(Seq::<char>::empty()));
    }
    assert(flush_text(Seq::<char>::empty()) =~= Seq::<SpecBlock>::empty());
    assert(seq![SpecBlock::ToolCall { tool_name: tool_name(k), arguments: a }] + Seq::<
        SpecBlock,
    >::empty() =~= seq![SpecBlock::ToolCall { tool_name: tool_name(k), arguments: a }]);
}

proof fn lemma_think_close_tag()
    ensures
        (seq!['<'] + think_close()).len() > 2,
        forall|d: int|
            1 <= d < (seq!['<'] + think_close()).len() ==> #[trigger] (seq!['<'] + think_close())[d]
                != '<',
{
}

proof fn lemma_thought_text(c: Seq<char>, rest: Seq<char>, content: Seq<char>)
    requires
        forall|i: int|
            0 <= i < c.len() ==> !at_tag(
                #[trigger] (c + (seq!['<'] + think_close()) + rest).skip(i),
                think_close(),
            ),
    ensures
        parse_thought(c + (seq!['<'] + think_close()) + rest, content) == seq![
            SpecBlock::Thought(content + c),
        ] + parse_text(rest, Seq::empty()),
    decreases c.len(),
{
    let tag = seq!['<'] + think_close();
    let s = c + tag + rest;
    if c.len() == 0 {
        assert(s =~= seq!['<'] + think_close() + rest);
        assert(content + c =~= content);
        lemma_at_tag(think_close(), rest);
    } else {
        assert(s.skip(0) =~= s);
        assert(!at_tag(s, think_close()));
        assert(s[0] == c[0]);
        let t = c.skip(1);
        assert(s.skip(1) =~= t + tag + rest);
        assert forall|i: int| 0 <= i < t.len() implies !at_tag(
            #[trigger] (t + tag + rest).skip(i),
            think_close(),
        ) by {
            assert((t + tag + rest).skip(i) =~= s.skip(i + 1));
            assert(!at_tag(s.skip(i + 1), think_close()));
        }
        lemma_thought_text(t, rest, content.push(c[0]));
        assert(content.push(c[0]) + t =~= content + c);
    }
}

proof fn lemma_no_early_think_close(c: Seq<char>, rest: Seq<char>, i: int)
    requires
        0 <= i < c.len(),
        !contains(c, seq!['<'] + think_close()),
    ensures
        !at_tag((c + (seq!['<'] + think_close()) + rest).skip(i), think_close()),
{
    lemma_think_close_tag();
    let tag = seq!['<'] + think_close();
    let s = c + tag + rest;
    let u = s.skip(i);
    if at_tag(u, think_close()) {
        assert(u.subrange(0, tag.len() as int) =~= tag) by {
            assert forall|d: int| 0 <= d < tag.len() implies u[d] == tag[d] by {
                if d > 0 {
                    assert(u.skip(1).subrange(0, think_close().len() as int)[d - 1] == u[d]);
                }
            }
        }
        if i + tag.len() <= c.len() {
            assert(c.subrange(i, i + tag.len()) =~= tag) by {
                assert forall|d: int| 0 <= d < tag.len() implies c.subrange(i, i + tag.len())[d]
                    == tag[d] by {
                    assert(u[d] == s[i + d]);
                }
            }
            assert(occurs_at(c, i, tag));
        } else {
            let d = c.len() - i;
            assert(u[d] == s[c.len() as int]);
            assert(s[c.len() as int] == tag[0]);
            assert(u.subrange(0, tag.len() as int)[d] == u[d]);
        }
    }
}

/// A reasoning chain is exactly what stands between its tags: for any
/// text `c` that does not contain `</think>`, `<think>`, `c` and
/// `</think>` parse to the single reasoning chain `c`.
pub proof fn law_thought_verbatim(c: Seq<char>)
    requires
        !contains(c, seq!['<'] + think_close()),
    ensures
        parse_output(seq!['<'] + think_open() + c + (seq!['<'] + think_close())) == seq![
            SpecBlock::Thought(c),
        ],
{
    let tag = seq!['<'] + think_close();
    assert forall|i: int| 0 <= i < c.len() implies !at_tag(
        #[trigger] (c + tag + Seq::<char>::empty()).skip(i),
        think_close(),
    ) by {
        lemma_no_early_think_close(c, Seq::empty(), i);
    }
    lemma_thought_text(c, Seq::empty(), Seq::empty());
    assert(c + tag + Seq::<char>::empty() =~= c + tag);
    assert(Seq::<char>::empty() + c =~= c);
    let s = seq!['<'] + think_open() + (c + tag);
    assert(seq!['<'] + think_open() + c + tag =~= s);
    lemma_at_tag(think_open(), c + tag);
    assert(parse_text(Seq::<char>::empty(), Seq::empty()) =~= Seq::<SpecBlock>::empty()) by {
        assert(is_blank(Seq::<char>::empty()));
    }
    assert(flush_text(Seq::<char>::empty()) =~= Seq::<SpecBlock>::empty());
    assert(seq![SpecBlock::Thought(c)] + Seq::<SpecBlock>::empty() =~= seq![SpecBlock::Thought(c)]);
}

/// Whether no tag that opens a block occurs at `i` in `t`.
spec fn no_open_tag_at(t: Seq<char>, i: int) -> bool {
    &&& !at_tag(t.skip(i), think_open())
    &&& !at_tag(t.skip(i), tool_open(0))
    &&& !at_tag(t.skip(i), tool_open(1))
    &&& !at_tag(t.skip(i), tool_open(2))
}

proof fn lemma_text_untagged(t: Seq<char>, acc: Seq<char>)
    requires
        forall|i: int| 0 <= i < t.len() ==> #[trigger] no_open_tag_at(t, i),
    ensures
        parse_text(t, acc) == flush_text(acc + t),
    decreases t.len(),
{
    if t.len() == 0 {
        assert(acc + t =~= acc);
    } else {
        assert(t.skip(0) =~= t);
        assert(no_open_tag_at(t, 0));
        let u = t.skip(1);
        assert forall|i: int| 0 <= i < u.len() implies #[trigger] no_open_tag_at(u, i) by {
            assert(u.skip(i) =~= t.skip(i + 1));
            assert(no_open_tag_at(t, i + 1));
        }
        lemma_text_untagged(u, acc.push(t[0]));
        assert(acc.push(t[0]) + u =~= acc + t);
    }
}

proof fn lemma_tag_occurs(t: Seq<char>, i: int, tag: Seq<char>)
    requires
        0 <= i < t.len(),
        at_tag(t.skip(i), tag),
    ensures
        occurs_at(t, i, seq!['<'] + tag),
{
    let u = t.skip(i);
    let full = seq!['<'] + tag;
    assert(t.subrange(i, i + full.len()) =~= full) by {
        assert forall|d: int| 0 <= d < full.len() implies t.subrange(i, i + full.len())[d]
            == full[d] by {
            assert(t[i + d] == u[d]);
            if d > 0 {
                assert(u.skip(1).subrange(0, tag.len() as int)[d - 1] == u[d]);
            }
        }
    }
}

/// Text with no tag that opens a block is kept as it is, `<` included: it
/// parses to one text block holding all of it, or to none when it is
/// blank.
pub proof fn law_text_verbatim(t: Seq<char>)
    requires
        !contains(t, seq!['<'] + think_open()),
        forall|k: int| 0 <= k < 3 ==> !contains(t, #[trigger] (seq!['<'] + tool_open(k))),
    ensures
        !is_blank(t) ==> parse_output(t) == seq![SpecBlock::Text(t)],
        is_blank(t) ==> parse_output(t) == Seq::<SpecBlock>::empty(),
{
    assert forall|i: int| 0 <= i < t.len() implies #[trigger] no_open_tag_at(t, i) by {
        if at_tag(t.skip(i), think_open()) {
            lemma_tag_occurs(t, i, think_open());
        }
        if at_tag(t.skip(i), tool_open(0)) {
            lemma_tag_occurs(t, i, tool_open(0));
            assert(!contains(t, seq!['<'] + tool_open(0)));
        }
        if at_tag(t.skip(i), tool_open(1)) {
            lemma_tag_occurs(t, i, tool_open(1));
            assert(!contains(t, seq!['<'] + tool_open(1)));
        }
        if at_tag(t.skip(i), tool_open(2)) {
            lemma_tag_occurs(t, i, tool_open(2));
            assert(!contains(t, seq!['<'] + tool_open(2)));
        }
    }
    lemma_text_untagged(t, Seq::empty());
    assert(Seq::<char>::empty() + t =~= t);
}

} // verus!
