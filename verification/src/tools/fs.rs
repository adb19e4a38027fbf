//! The file patcher tool: its command language, and the messages that
//! report the outcome of the file operations.

use vstd::prelude::*;

use crate::text::{
    chars_of, contains, is_space, find, push_char, string_from_chars, trim, trimmed,
};

verus! {

broadcast use vstd::string::group_string_axioms;

/// The file patcher tool (`READ <path>` or `WRITE <path>` followed by the
/// content on the next lines).
pub struct FilePatcherTool;

/// A file operation requested of the file patcher.
#[derive(Debug, Clone, PartialEq)]
pub enum FileCommand {
    /// Read the file at `path`.
    Read { path: String },
    /// Write `content` to the file at `path`, creating parent directories.
    Write { path: String, content: String },
}

/// `s` without one trailing carriage return, if it has one.
pub open spec fn strip_cr(s: Seq<char>) -> Seq<char> {
    if s.len() > 0 && s.last() == '\r' {
        s.drop_last()
    } else {
        s
    }
}

/// The index of the first `c` in `s`, or `s.len()` when there is none.
pub open spec fn index_of(s: Seq<char>, c: char) -> int
    decreases s.len(),
{
    if s.len() == 0 {
        0
    } else if s[0] == c {
        0
    } else {
        1 + index_of(s.skip(1), c)
    }
}

/// The lines of `s` as `str::lines` gives them: split after each `\n`,
/// without the `\n` and a `\r` just before it; a final empty line is not
/// a line.
pub open spec fn lines(s: Seq<char>) -> Seq<Seq<char>>
    decreases s.len(),
{
    let j = index_of(s, '\n');
    if s.len() == 0 {
        Seq::empty()
    } else if j >= s.len() {
        seq![s]
    } else {
        proof {
            lemma_index_of(s, '\n');
        }
        seq![strip_cr(s.take(j))] + lines(s.skip(j + 1))
    }
}

/// The parts joined with `\n` between them.
pub open spec fn join_lines(parts: Seq<Seq<char>>) -> Seq<char>
    decreases parts.len(),
{
    if parts.len() == 0 {
        Seq::empty()
    } else if parts.len() == 1 {
        parts[0]
    } else {
        join_lines(parts.drop_last()) + seq!['\n'] + parts.last()
    }
}

/// The first space-separated word of `s` and, if there is a space, what
/// follows the first one (`s.splitn(2, ' ')`).
pub open spec fn split_first_space(s: Seq<char>) -> (Seq<char>, Option<Seq<char>>) {
    let j = index_of(s, ' ');
    if j >= s.len() {
        (s, None)
    } else {
        (s.take(j), Some(s.skip(j + 1)))
    }
}

/// `READ`.
pub open spec fn read_word() -> Seq<char> {
    seq!['R', 'E', 'A', 'D']
}

/// `WRITE`.
pub open spec fn write_word() -> Seq<char> {
    seq!['W', 'R', 'I', 'T', 'E']
}

/// `..`.
pub open spec fn parent_dir() -> Seq<char> {
    seq!['.', '.']
}

/// The view of a file command.
pub open spec fn command_view(c: FileCommand) -> (bool, Seq<char>, Seq<char>) {
    match c {
        FileCommand::Read { path } => (false, path@, Seq::empty()),
        FileCommand::Write { path, content } => (true, path@, content@),
    }
}

/// What the file patcher makes of its arguments.
///
/// The first line, trimmed, is the command word and, after the first
/// space, the path (trimmed again). `READ <path>` reads; `WRITE <path>`
/// writes the remaining lines, joined with `\n`. A path containing `..`
/// cannot be written. Each failure yields its message.
pub open spec fn plan_for(arguments: Seq<char>) -> Result<(bool, Seq<char>, Seq<char>), Seq<char>> {
    let ls = lines(arguments);
    if ls.len() == 0 {
        Err(
            "Empty arguments for file_patcher. Expected 'READ <path>' or 'WRITE <path>\\n<content>'"@,
        )
    } else {
        let (cmd, rest) = split_first_space(trim(ls[0]));
        if cmd == read_word() {
            match rest {
                None => Err("READ command requires a file path"@),
                Some(p) => Ok((false, trim(p), Seq::empty())),
            }
        } else if cmd == write_word() {
            match rest {
                None => Err("WRITE command requires a file path"@),
                Some(p) => if contains(trim(p), parent_dir()) {
                    Err("Path traversal (..) is not allowed for security reasons"@)
                } else {
                    Ok((true, trim(p), join_lines(ls.skip(1))))
                },
            }
        } else {
            Err("Unknown file_patcher command: '"@ + cmd
                + "'. Supported commands are READ and WRITE"@)
        }
    }
}

pub proof fn lemma_index_of(s: Seq<char>, c: char)
    ensures
        0 <= index_of(s, c) <= s.len(),
        index_of(s, c) < s.len() ==> s[index_of(s, c)] == c,
        forall|i: int| 0 <= i < index_of(s, c) ==> s[i] != c,
    decreases s.len(),
{
    if s.len() > 0 && s[0] != c {
        lemma_index_of(s.skip(1), c);
        assert forall|i: int| 0 <= i < index_of(s, c) implies s[i] != c by {
            if i > 0 {
                assert(s[i] == s.skip(1)[i - 1]);
            }
        }
    }
}

proof fn lemma_index_of_is(s: Seq<char>, c: char, j: int)
    requires
        0 <= j <= s.len(),
        forall|i: int| 0 <= i < j ==> s[i] != c,
        j < s.len() ==> s[j] == c,
    ensures
        index_of(s, c) == j,
    decreases s.len(),
{
    if j > 0 {
        assert(s[0] != c);
        assert forall|i: int| 0 <= i < j - 1 implies s.skip(1)[i] != c by {
            assert(s.skip(1)[i] == s[i + 1]);
        }
        if j - 1 < s.len() - 1 {
            assert(s.skip(1)[j - 1] == s[j]);
        }
        lemma_index_of_is(s.skip(1), c, j - 1);
    }
}

/// The first index at or after `from` where `v` holds `c`, or `v.len()`.
fn scan_for(v: &Vec<char>, from: usize, c: char) -> (j: usize)
    requires
        from <= v.len(),
    ensures
        j as int == from + index_of(v@.skip(from as int), c),
{
    let mut j = from;
    while j < v.len() && v[j] != c
        invariant
            from <= j <= v.len(),
            forall|i: int| from <= i < j ==> v@[i] != c,
        decreases v.len() - j,
    {
        j = j + 1;
    }
    proof {
        let s = v@.skip(from as int);
        assert forall|i: int| 0 <= i < j - from implies s[i] != c by {
            assert(s[i] == v@[from + i]);
        }
        if j < v.len() {
            assert(s[j - from] == v@[j as int]);
        }
        lemma_index_of_is(s, c, j - from);
    }
    j
}

/// The lines of `v` (as `str::lines` gives them).
fn lines_of(v: &Vec<char>) -> (ls: Vec<Vec<char>>)
    ensures
        ls@.map_values(|l: Vec<char>| l@) == lines(v@),
{
    let mut ls: Vec<Vec<char>> = Vec::new();
    let mut start: usize = 0;
    assert(v@.skip(0) =~= v@);
    while start < v.len()
        invariant
            start <= v.len(),
            ls@.map_values(|l: Vec<char>| l@) + lines(v@.skip(start as int)) == lines(v@),
        decreases v.len() - start,
    {
        let ghost s = v@.skip(start as int);
        let j = scan_for(v, start, '\n');
        proof {
            lemma_index_of(s, '\n');
        }
        let mut end = j;
        if j < v.len() && end > start && v[end - 1] == '\r' {
            end = end - 1;
        }
        let mut line: Vec<char> = Vec::new();
        let mut k = start;
        while k < end
            invariant
                start <= k <= end <= v.len(),
                line@ == v@.subrange(start as int, k as int),
            decreases end - k,
        {
            line.push(v[k]);
            k = k + 1;
            assert(line@ =~= v@.subrange(start as int, k as int));
        }
        let ghost old_ls = ls@.map_values(|l: Vec<char>| l@);
        ls.push(line);
        proof {
            assert(ls@.map_values(|l: Vec<char>| l@) =~= old_ls.push(line@));
            if j < v.len() {
                assert(s.take(j - start) =~= v@.subrange(start as int, j as int));
                assert(line@ =~= strip_cr(s.take(j - start)));
                assert(s.skip(j - start + 1) =~= v@.skip(j + 1));
                assert(lines(s) == seq![line@] + lines(v@.skip(j + 1)));
            } else {
                assert(line@ =~= s);
                assert(lines(s) == seq![s]);
                assert(v@.skip(v.len() as int) =~= Seq::<char>::empty());
            }
            let next: int = if j < v.len() { j + 1 } else { j as int };
            assert(old_ls.push(line@) + lines(v@.skip(next)) =~= old_ls + (seq![line@] + lines(
                v@.skip(next),
            )));
        }
        if j < v.len() {
            start = j + 1;
        } else {
            start = j;
        }
    }
    assert(v@.skip(start as int) =~= Seq::<char>::empty());
    assert(ls@.map_values(|l: Vec<char>| l@) + Seq::<Seq<char>>::empty() =~= ls@.map_values(
        |l: Vec<char>| l@,
    ));
    ls
}

fn same_chars(a: &Vec<char>, b: &Vec<char>) -> (r: bool)
    ensures
        r == (a@ == b@),
{
    if a.len() != b.len() {
        return false;
    }
    let mut i: usize = 0;
    while i < a.len()
        invariant
            a.len() == b.len(),
            i <= a.len(),
            forall|j: int| 0 <= j < i ==> a@[j] == b@[j],
        decreases a.len() - i,
    {
        if a[i] != b[i] {
            return false;
        }
        i = i + 1;
    }
    assert(a@ =~= b@);
    true
}

fn sub_vec(v: &Vec<char>, from: usize, to: usize) -> (r: Vec<char>)
    requires
        from <= to <= v.len(),
    ensures
        r@ == v@.subrange(from as int, to as int),
{
    let mut r: Vec<char> = Vec::new();
    let mut k = from;
    while k < to
        invariant
            from <= k <= to <= v.len(),
            r@ == v@.subrange(from as int, k as int),
        decreases to - k,
    {
        r.push(v[k]);
        k = k + 1;
        assert(r@ =~= v@.subrange(from as int, k as int));
    }
    r
}

/// The lines `ls[from..]` joined with `\n`.
fn join_from(ls: &Vec<Vec<char>>, from: usize) -> (s: String)
    requires
        from <= ls.len(),
    ensures
        s@ == join_lines(ls@.map_values(|l: Vec<char>| l@).skip(from as int)),
{
    let ghost all = ls@.map_values(|l: Vec<char>| l@);
    let mut s = String::new();
    let mut i = from;
    while i < ls.len()
        invariant
            from <= i <= ls.len(),
            all == ls@.map_values(|l: Vec<char>| l@),
            s@ == join_lines(all.subrange(from as int, i as int)),
        decreases ls.len() - i,
    {
        let ghost before = s@;
        if i > from {
            push_char(&mut s, '\n');
        }
        let piece = string_from_chars(&ls[i]);
        s.append(piece.as_str());
        proof {
            let parts = all.subrange(from as int, i + 1);
            assert(parts.drop_last() =~= all.subrange(from as int, i as int));
            assert(parts.last() == ls@[i as int]@);
            if i > from {
                assert(s@ =~= before + seq!['\n'] + parts.last());
            } else {
                assert(all.subrange(from as int, i as int) =~= Seq::<Seq<char>>::empty());
                assert(s@ =~= parts[0]);
            }
        }
        i = i + 1;
    }
    assert(all.subrange(from as int, ls.len() as int) =~= all.skip(from as int));
    s
}

impl FilePatcherTool {
    /// The tool's name.
    pub fn name(&self) -> (n: &'static str)
        ensures
            n@ == "file_patcher"@,
    {
        "file_patcher"
    }

    /// Reads the file patcher's arguments into a file command, or the
    /// message for why they cannot be run (see `plan_for`).
    pub fn plan(arguments: &str) -> (r: Result<FileCommand, String>)
        ensures
            match r {
                Ok(c) => plan_for(arguments@) == Ok::<_, Seq<char>>(command_view(c)),
                Err(e) => plan_for(arguments@) == Err::<(bool, Seq<char>, Seq<char>), _>(e@),
            },
    {
        let v = chars_of(arguments);
        let ls = lines_of(&v);
        let ghost lsv = ls@.map_values(|l: Vec<char>| l@);
        if ls.len() == 0 {
            return Err(
                "Empty arguments for file_patcher. Expected 'READ <path>' or 'WRITE <path>\\n<content>'".to_owned(),
            );
        }
        let first = trimmed(&ls[0]);
        assert(first@ == trim(lsv[0]));
        let sp = scan_for(&first, 0, ' ');
        assert(first@.skip(0) =~= first@);
        proof {
            lemma_index_of(first@, ' ');
        }
        let cmd = sub_vec(&first, 0, sp);
        assert(cmd@ =~= split_first_space(first@).0);
        let has_rest = sp < first.len();
        let rest = if has_rest {
            sub_vec(&first, sp + 1, first.len())
        } else {
            Vec::new()
        };
        assert(has_rest ==> rest@ =~= first@.skip(sp + 1));
        let read_w: Vec<char> = vec!['R', 'E', 'A', 'D'];
        let write_w: Vec<char> = vec!['W', 'R', 'I', 'T', 'E'];
        if same_chars(&cmd, &read_w) {
            if !has_rest {
                return Err("READ command requires a file path".to_owned());
            }
            let path = trimmed(&rest);
            Ok(FileCommand::Read { path: string_from_chars(&path) })
        } else if same_chars(&cmd, &write_w) {
            if !has_rest {
                return Err("WRITE command requires a file path".to_owned());
            }
            let path = trimmed(&rest);
            let content = join_from(&ls, 1);
            let dots: Vec<char> = vec!['.', '.'];
            if find(&path, &dots) {
                return Err("Path traversal (..) is not allowed for security reasons".to_owned());
            }
            Ok(FileCommand::Write { path: string_from_chars(&path), content })
        } else {
            let mut msg = "Unknown file_patcher command: '".to_owned();
            let cmd_s = string_from_chars(&cmd);
            msg.append(cmd_s.as_str());
            msg.append("'. Supported commands are READ and WRITE");
            Err(msg)
        }
    }

    /// The tool's answer once a file was read: its content, or the message
    /// for the error `error` (the I/O error's text).
    pub fn read_outcome(path: &str, outcome: Result<String, String>) -> (r: Result<String, String>)
        ensures
            match outcome {
                Ok(content) => r == Ok::<String, String>(content),
                Err(e) => r matches Err(m) && m@ == "Failed to read file '"@ + path@ + "': "@ + e@,
            },
    {
        match outcome {
            Ok(content) => Ok(content),
            Err(e) => {
                let mut m = "Failed to read file '".to_owned();
                m.append(path);
                m.append("': ");
                m.append(e.as_str());
                Err(m)
            },
        }
    }

    /// The message when the parent directories of `path` could not be
    /// created (`error` is the I/O error's text).
    pub fn create_dirs_failed(path: &str, error: &str) -> (m: String)
        ensures
            m@ == "Failed to create parent directories for '"@ + path@ + "': "@ + error@,
    {
        let mut m = "Failed to create parent directories for '".to_owned();
        m.append(path);
        m.append("': ");
        m.append(error);
        m
    }

    /// The tool's answer once a file write was attempted.
    pub fn write_outcome(path: &str, outcome: Result<(), String>) -> (r: Result<String, String>)
        ensures
            match outcome {
                Ok(_) => r matches Ok(m) && m@ == "Successfully wrote to '"@ + path@ + "'"@,
                Err(e) => r matches Err(m) && m@ == "Failed to write to file '"@ + path@ + "': "@
                    + e@,
            },
    {
        match outcome {
            Ok(_) => {
                let mut m = "Successfully wrote to '".to_owned();
                m.append(path);
                m.append("'");
                Ok(m)
            },
            Err(e) => {
                let mut m = "Failed to write to file '".to_owned();
                m.append(path);
                m.append("': ");
                m.append(e.as_str());
                Err(m)
            },
        }
    }
}

/// The file patcher never plans a write to a path that contains `..`.
pub proof fn law_no_write_through_parent_dir(arguments: Seq<char>)
    ensures
        plan_for(arguments) matches Ok((write, path, _)) ==> (write ==> !contains(path, parent_dir())),
{
}

proof fn lemma_lines_nonempty(s: Seq<char>)
    requires
        s.len() > 0,
    ensures
        lines(s).len() > 0,
{
    lemma_index_of(s, '\n');
}

proof fn lemma_join_cons(x: Seq<char>, rest: Seq<Seq<char>>)
    requires
        rest.len() > 0,
    ensures
        join_lines(seq![x] + rest) == x + seq!['\n'] + join_lines(rest),
    decreases rest.len(),
{
    let all = seq![x] + rest;
    assert(all.drop_last() =~= seq![x] + rest.drop_last());
    assert(all.last() == rest.last());
    if rest.len() == 1 {
        assert(seq![x] + rest.drop_last() =~= seq![x]);
        assert(join_lines(seq![x]) == x);
        assert(join_lines(rest) == rest[0]);
        assert(rest.last() == rest[0]);
    } else {
        lemma_join_cons(x, rest.drop_last());
        assert(x + seq!['\n'] + join_lines(rest.drop_last()) + seq!['\n'] + rest.last() =~= x
            + seq!['\n'] + (join_lines(rest.drop_last()) + seq!['\n'] + rest.last()));
    }
}

/// Splitting text without carriage returns into lines and joining them
/// with `\n` gives the text back, unless it ends with a newline.
proof fn lemma_lines_join(c: Seq<char>)
    requires
        forall|i: int| 0 <= i < c.len() ==> c[i] != '\r',
        c.len() == 0 || c.last() != '\n',
    ensures
        join_lines(lines(c)) == c,
    decreases c.len(),
{
    if c.len() > 0 {
        lemma_index_of(c, '\n');
        let j = index_of(c, '\n');
        if j < c.len() {
            let head = c.take(j);
            let rest = c.skip(j + 1);
            assert(j < c.len() - 1);
            assert(strip_cr(head) == head) by {
                if head.len() > 0 {
                    assert(head.last() == c[j - 1]);
                }
            }
            assert forall|i: int| 0 <= i < rest.len() implies rest[i] != '\r' by {
                assert(rest[i] == c[i + j + 1]);
            }
            assert(rest.last() == c.last());
            lemma_lines_join(rest);
            lemma_lines_nonempty(rest);
            lemma_join_cons(head, lines(rest));
            assert(head + seq!['\n'] + rest =~= c);
        }
    }
}

/// A write keeps its content verbatim: for a path `path` that is not
/// empty, holds no white space and no `..`, and content `content` with no
/// carriage return that does not end with a newline, `WRITE <path>`,
/// a newline and `content` plan the write of exactly `content` (blank
/// lines included) to `path`.
pub proof fn law_write_keeps_content(path: Seq<char>, content: Seq<char>)
    requires
        path.len() > 0,
        forall|i: int| 0 <= i < path.len() ==> !is_space(#[trigger] path[i]),
        !contains(path, seq!['.', '.']),
        forall|i: int| 0 <= i < content.len() ==> #[trigger] content[i] != '\r',
        content.len() == 0 || content.last() != '\n',
    ensures
        plan_for(seq!['W', 'R', 'I', 'T', 'E', ' '] + path + seq!['\n'] + content) == Ok::<
            (bool, Seq<char>, Seq<char>),
            Seq<char>,
        >((true, path, content)),
{
    let w = seq!['W', 'R', 'I', 'T', 'E', ' '];
    let first = w + path;
    let s = first + seq!['\n'] + content;
    assert forall|i: int| 0 <= i < first.len() implies s[i] != '\n' by {
        if i >= 6 {
            assert(s[i] == path[i - 6]);
        }
    }
    assert(s[first.len() as int] == '\n');
    lemma_index_of_is(s, '\n', first.len() as int);
    assert(s.take(first.len() as int) =~= first);
    assert(s.skip(first.len() + 1int) =~= content);
    assert(first.last() == path.last());
    assert(strip_cr(first) == first);
    let ls = lines(s);
    assert(ls =~= seq![first] + lines(content));
    assert(ls.skip(1) =~= lines(content));
    lemma_lines_join(content);
    assert(first[0] == 'W');
    crate::text::lemma_trim_unchanged(first);
    assert(first[5] == ' ');
    lemma_index_of_is(first, ' ', 5);
    assert(first.take(5) =~= write_word());
    assert(first.skip(6) =~= path);
    crate::text::lemma_trim_unchanged(path);
    assert(write_word() != read_word()) by {
        assert(write_word().len() != read_word().len());
    }
}

/// A read names its path verbatim: for a path `path` that is not empty
/// and holds no white space (it may hold `..`), `READ <path>` plans the
/// read of exactly `path`.
pub proof fn law_read_names_path(path: Seq<char>)
    requires
        path.len() > 0,
        forall|i: int| 0 <= i < path.len() ==> !is_space(#[trigger] path[i]),
    ensures
        plan_for(seq!['R', 'E', 'A', 'D', ' '] + path) == Ok::<(bool, Seq<char>, Seq<char>), Seq<char>>(
            (false, path, Seq::empty()),
        ),
{
    let first = seq!['R', 'E', 'A', 'D', ' '] + path;
    assert forall|i: int| 0 <= i < first.len() implies first[i] != '\n' by {
        if i >= 5 {
            assert(first[i] == path[i - 5]);
        }
    }
    lemma_index_of_is(first, '\n', first.len() as int);
    assert(lines(first) =~= seq![first]);
    assert(first[0] == 'R');
    assert(first.last() == path.last());
    crate::text::lemma_trim_unchanged(first);
    assert(first[4] == ' ');
    lemma_index_of_is(first, ' ', 4);
    assert(first.take(4) =~= read_word());
    assert(first.skip(5) =~= path);
    crate::text::lemma_trim_unchanged(path);
}

} // verus!
