//! Agent-Readable Markdown: the documents every command prints.
//!
//! A document is a sequence of `### Title` sections separated by one blank line,
//! with text, `- name: `value`` metadata fields and fenced code blocks whose fence
//! is always longer than any run of backticks inside them.

use vstd::prelude::*;

use crate::cli::size_text;
use crate::record::{records_view, SessionRecord, SessionRecordView};
use crate::session::{display_name, push_session_entry, session_entries, session_list_text};
use crate::text::{chars_of, push_repeat, push_str, repeat, strip_trailing, trim};

verus! {

broadcast use vstd::string::group_string_axioms;

/// `contents` with a `### title` heading appended, after a blank line unless the
/// document is empty.
pub open spec fn section_text(contents: Seq<char>, title: Seq<char>) -> Seq<char> {
    (if contents.len() > 0 { contents.push('\n') } else { contents }) + "### "@ + title + seq!['\n']
}

/// `contents` with the line `text` (its trailing newlines dropped) appended.
pub open spec fn text_text(contents: Seq<char>, text: Seq<char>) -> Seq<char> {
    contents + strip_trailing(text, '\n') + seq!['\n']
}

pub open spec fn field_text(contents: Seq<char>, name: Seq<char>, value: Seq<char>) -> Seq<char> {
    contents + "- "@ + name + ": `"@ + value + "`\n"@
}

pub open spec fn continuation_field_text(contents: Seq<char>, name: Seq<char>, value: Seq<char>) -> Seq<char> {
    contents + "  "@ + name + ": `"@ + value + "`\n"@
}

pub open spec fn continuation_text_text(contents: Seq<char>, name: Seq<char>, value: Seq<char>) -> Seq<char> {
    contents + "  "@ + name + ": "@ + value + seq!['\n']
}

/// The length of the run of backticks that ends `s`.
pub open spec fn trailing_backticks(s: Seq<char>) -> nat
    decreases s.len(),
{
    if s.len() > 0 && s.last() == '`' {
        1 + trailing_backticks(s.drop_last())
    } else {
        0
    }
}

/// The length of the longest run of backticks in `s`.
pub open spec fn longest_backticks(s: Seq<char>) -> nat
    decreases s.len(),
{
    if s.len() == 0 {
        0
    } else {
        let before = longest_backticks(s.drop_last());
        let here = trailing_backticks(s);
        if before >= here {
            before
        } else {
            here
        }
    }
}

/// The fence for a code block around `contents`: one backtick more than the
/// longest run inside, and at least three.
pub open spec fn fence(contents: Seq<char>) -> Seq<char> {
    let longest = longest_backticks(contents);
    repeat('`', (if longest >= 2 { longest } else { 2 }) + 1)
}

pub open spec fn code_block_text(contents: Seq<char>, language: Seq<char>, body: Seq<char>) -> Seq<char> {
    contents + fence(body) + language + seq!['\n'] + body + (if body.len() > 0 && body.last()
        == '\n' {
        Seq::empty()
    } else {
        seq!['\n']
    }) + fence(body) + seq!['\n']
}

/// An Agent-Readable Markdown document under construction.
pub struct MarkdownDocument {
    contents: String,
}

impl View for MarkdownDocument {
    type V = Seq<char>;

    closed spec fn view(&self) -> Seq<char> {
        self.contents@
    }
}

/// The characters of `s` with trailing `c`s dropped, from position `from` on.
fn strip_trailing_chars(v: &Vec<char>, from: usize, c: char) -> (end: usize)
    requires
        from <= v.len(),
    ensures
        from <= end <= v.len(),
        v@.subrange(from as int, end as int) == strip_trailing(v@.subrange(from as int, v.len() as int), c),
{
    let mut end = v.len();
    while end > from && v[end - 1] == c
        invariant
            from <= end <= v.len(),
            strip_trailing(v@.subrange(from as int, v.len() as int), c) == strip_trailing(
                v@.subrange(from as int, end as int),
                c,
            ),
        decreases end,
    {
        assert(v@.subrange(from as int, end as int).drop_last() =~= v@.subrange(from as int, end - 1));
        end -= 1;
    }
    end
}

/// The fence for a code block around `contents`.
pub fn fence_for(contents: &str) -> (f: String)
    ensures
        f@ == fence(contents@),
{
    let v = chars_of(contents);
    let mut longest: usize = 0;
    let mut current: usize = 0;
    let mut i: usize = 0;
    while i < v.len()
        invariant
            i <= v.len(),
            v@ == contents@,
            current == trailing_backticks(v@.take(i as int)),
            longest == longest_backticks(v@.take(i as int)),
            current <= i,
            longest <= i,
        decreases v.len() - i,
    {
        assert(v@.take(i + 1).drop_last() =~= v@.take(i as int));
        if v[i] == '`' {
            current += 1;
            if current > longest {
                longest = current;
            }
        } else {
            current = 0;
        }
        i += 1;
    }
    assert(v@.take(v.len() as int) =~= v@);
    let n = if longest >= 2 {
        longest
    } else {
        2
    };
    let mut f = String::new();
    push_repeat(&mut f, '`', n);
    f.push('`');
    assert(f@ =~= fence(contents@));
    f
}

impl MarkdownDocument {
    /// An empty document.
    pub fn new() -> (d: Self)
        ensures
            d@ == Seq::<char>::empty(),
    {
        MarkdownDocument { contents: String::new() }
    }

    /// Starts a `### title` section, after a blank line unless this is the start.
    pub fn section(&mut self, title: &str) -> (r: &mut Self)
        ensures
            (*r)@ == section_text(old(self)@, title@),
            *final(self) == *final(r),
    {
        if !self.contents.as_str().is_empty() {
            self.contents.push('\n');
        }
        push_str(&mut self.contents, "### ");
        push_str(&mut self.contents, title);
        self.contents.push('\n');
        assert(self.contents@ =~= section_text(old(self)@, title@));
        self
    }

    /// Adds `text` as a line, dropping its trailing newlines.
    pub fn text(&mut self, text: &str) -> (r: &mut Self)
        ensures
            (*r)@ == text_text(old(self)@, text@),
            *final(self) == *final(r),
    {
        let v = chars_of(text);
        let end = strip_trailing_chars(&v, 0, '\n');
        assert(v@.subrange(0, v.len() as int) =~= v@);
        crate::text::push_chars(&mut self.contents, &v, 0, end);
        self.contents.push('\n');
        assert(self.contents@ =~= text_text(old(self)@, text@));
        self
    }

    /// Adds a `- name: `value`` metadata line.
    pub fn field(&mut self, name: &str, value: &str) -> (r: &mut Self)
        ensures
            (*r)@ == field_text(old(self)@, name@, value@),
            *final(self) == *final(r),
    {
        push_str(&mut self.contents, "- ");
        push_str(&mut self.contents, name);
        push_str(&mut self.contents, ": `");
        push_str(&mut self.contents, value);
        push_str(&mut self.contents, "`\n");
        assert(self.contents@ =~= field_text(old(self)@, name@, value@));
        self
    }

    /// Adds an indented `name: `value`` line continuing the previous field.
    pub fn continuation_field(&mut self, name: &str, value: &str) -> (r: &mut Self)
        ensures
            (*r)@ == continuation_field_text(old(self)@, name@, value@),
            *final(self) == *final(r),
    {
        push_str(&mut self.contents, "  ");
        push_str(&mut self.contents, name);
        push_str(&mut self.contents, ": `");
        push_str(&mut self.contents, value);
        push_str(&mut self.contents, "`\n");
        assert(self.contents@ =~= continuation_field_text(old(self)@, name@, value@));
        self
    }

    /// Adds an indented `name: value` line continuing the previous field.
    pub fn continuation_text(&mut self, name: &str, value: &str) -> (r: &mut Self)
        ensures
            (*r)@ == continuation_text_text(old(self)@, name@, value@),
            *final(self) == *final(r),
    {
        push_str(&mut self.contents, "  ");
        push_str(&mut self.contents, name);
        push_str(&mut self.contents, ": ");
        push_str(&mut self.contents, value);
        self.contents.push('\n');
        assert(self.contents@ =~= continuation_text_text(old(self)@, name@, value@));
        self
    }

    /// Adds `contents` as a fenced code block tagged with `language`.
    pub fn code_block(&mut self, language: &str, contents: &str) -> (r: &mut Self)
        ensures
            (*r)@ == code_block_text(old(self)@, language@, contents@),
            *final(self) == *final(r),
    {
        let fence = fence_for(contents);
        let v = chars_of(contents);
        push_str(&mut self.contents, fence.as_str());
        push_str(&mut self.contents, language);
        self.contents.push('\n');
        push_str(&mut self.contents, contents);
        if !(v.len() > 0 && v[v.len() - 1] == '\n') {
            self.contents.push('\n');
        }
        push_str(&mut self.contents, fence.as_str());
        self.contents.push('\n');
        assert(self.contents@ =~= code_block_text(old(self)@, language@, contents@));
        self
    }

    /// The finished document.
    pub fn finish(self) -> (s: String)
        ensures
            s@ == self@,
    {
        self.contents
    }
}

/// Runs of backticks in `contents` are all shorter than its fence.
pub proof fn lemma_fence_outlasts_backtick_runs(contents: Seq<char>, i: int, j: int)
    requires
        0 <= i <= j <= contents.len(),
        forall|k: int| i <= k < j ==> contents[k] == '`',
    ensures
        j - i < fence(contents).len(),
        fence(contents).len() >= 3,
{
    lemma_trailing_run(contents, i, j);
    lemma_longest_ge_trailing(contents.take(j));
    lemma_longest_prefix(contents, j);
}

proof fn lemma_trailing_run(s: Seq<char>, i: int, j: int)
    requires
        0 <= i <= j <= s.len(),
        forall|k: int| i <= k < j ==> s[k] == '`',
    ensures
        trailing_backticks(s.take(j)) >= j - i,
    decreases j - i,
{
    if j > i {
        assert(s.take(j).drop_last() =~= s.take(j - 1));
        lemma_trailing_run(s, i, j - 1);
    }
}

proof fn lemma_longest_ge_trailing(s: Seq<char>)
    ensures
        longest_backticks(s) >= trailing_backticks(s),
{
}

proof fn lemma_longest_prefix(s: Seq<char>, j: int)
    requires
        0 <= j <= s.len(),
    ensures
        longest_backticks(s) >= longest_backticks(s.take(j)),
    decreases s.len() - j,
{
    if j < s.len() {
        assert(s.take(j + 1).drop_last() =~= s.take(j));
        lemma_longest_prefix(s, j + 1);
    } else {
        assert(s.take(j) =~= s);
    }
}

/// The `### Status` document for `message`.
pub open spec fn status_document_text(message: Seq<char>) -> Seq<char> {
    text_text(section_text(Seq::empty(), "Status"@), message)
}

/// The `### Error` document for `message`, trimmed.
pub open spec fn error_document_text(message: Seq<char>) -> Seq<char> {
    text_text(section_text(Seq::empty(), "Error"@), trim(message))
}

/// A `### Status` section holding `message`.
pub fn status_document(message: &str) -> (s: String)
    ensures
        s@ == status_document_text(message@),
{
    let mut document = MarkdownDocument::new();
    document.section("Status");
    document.text(message);
    document.finish()
}

/// A `### Error` section holding `message` without surrounding whitespace.
pub fn error_document(message: &str) -> (s: String)
    ensures
        s@ == error_document_text(message@),
{
    let trimmed = crate::text::trim_str(message);
    let mut document = MarkdownDocument::new();
    document.section("Error");
    document.text(trimmed.as_str());
    document.finish()
}

pub open spec fn result_with_lua_text(result: Seq<char>, lua: Seq<char>) -> Seq<char> {
    code_block_text(
        section_text(code_block_text(section_text(Seq::empty(), "Result"@), "text"@, result), "Ran Lua"@),
        "lua"@,
        lua,
    )
}

/// The result of a Lua chunk, followed by the chunk that produced it.
pub fn result_with_lua(result: &str, lua: &str) -> (s: String)
    ensures
        s@ == result_with_lua_text(result@, lua@),
{
    let mut document = MarkdownDocument::new();
    document.section("Result");
    document.code_block("text", result);
    document.section("Ran Lua");
    document.code_block("lua", lua);
    document.finish()
}

pub open spec fn timed_out_text(result: Seq<char>, lua: Seq<char>) -> Seq<char> {
    code_block_text(
        section_text(
            code_block_text(
                section_text(
                    text_text(Seq::empty(), "timed out waiting for Lua condition"@),
                    "Last Result"@,
                ),
                "text"@,
                result,
            ),
            "Ran Lua"@,
        ),
        "lua"@,
        lua,
    )
}

/// The report of a `wait` that timed out: the last result and the condition.
pub fn timed_out_lua_condition(result: &str, lua: &str) -> (s: String)
    ensures
        s@ == timed_out_text(result@, lua@),
{
    let mut document = MarkdownDocument::new();
    document.text("timed out waiting for Lua condition");
    document.section("Last Result");
    document.code_block("text", result);
    document.section("Ran Lua");
    document.code_block("lua", lua);
    document.finish()
}

pub open spec fn ran_command_text(output: Seq<char>, command: Seq<char>) -> Seq<char> {
    let start = if trim(output).len() > 0 {
        code_block_text(section_text(Seq::empty(), "Output"@), ""@, output)
    } else {
        Seq::empty()
    };
    code_block_text(section_text(start, "Ran Command"@), "vim"@, command)
}

/// The output of an Ex command (when it printed anything) and the command.
pub fn ran_command(output: &str, command: &str) -> (s: String)
    ensures
        s@ == ran_command_text(output@, command@),
{
    let mut document = MarkdownDocument::new();
    let trimmed = crate::text::trim_str(output);
    if !trimmed.as_str().is_empty() {
        document.section("Output");
        document.code_block("", output);
    }
    document.section("Ran Command");
    document.code_block("vim", command);
    document.finish()
}

pub open spec fn sent_keys_text(title: Seq<char>, keys: Seq<char>) -> Seq<char> {
    code_block_text(section_text(Seq::empty(), title), ""@, keys)
}

/// A `### title` section holding the keys that were sent.
pub fn sent_keys(title: &str, keys: &str) -> (s: String)
    ensures
        s@ == sent_keys_text(title@, keys@),
{
    let mut document = MarkdownDocument::new();
    document.section(title);
    document.code_block("", keys);
    document.finish()
}

pub open spec fn opened_session_text(r: SessionRecordView) -> Seq<char> {
    "Session opened."@ + "\n- Session ID: `"@ + r.id + "`"@ + "\n- Session Name: `"@ + display_name(
        r.name,
    ) + "`"@ + "\n- Opened From: `"@ + r.cwd + "`"@ + "\n- Size: `"@ + size_text(
        r.size.cols,
        r.size.rows,
    ) + "`"@ + "\n- Artifact Directory: `"@ + r.artifact_dir + "`"@
}

/// The status text for a newly opened Session.
pub fn opened_session(record: &SessionRecord) -> (s: String)
    ensures
        s@ == opened_session_text(record@),
{
    let mut s = "Session opened.".to_string();
    push_str(&mut s, "\n- Session ID: `");
    push_str(&mut s, record.id.as_str());
    push_str(&mut s, "`");
    push_str(&mut s, "\n- Session Name: `");
    match &record.name {
        Some(n) => push_str(&mut s, n.as_str()),
        None => push_str(&mut s, "(unnamed)"),
    }
    push_str(&mut s, "`");
    push_str(&mut s, "\n- Opened From: `");
    push_str(&mut s, record.cwd.as_str());
    push_str(&mut s, "`");
    push_str(&mut s, "\n- Size: `");
    let size = record.size.to_string();
    push_str(&mut s, size.as_str());
    push_str(&mut s, "`");
    push_str(&mut s, "\n- Artifact Directory: `");
    push_str(&mut s, record.artifact_dir.as_str());
    push_str(&mut s, "`");
    assert(s@ =~= opened_session_text(record@));
    s
}

pub open spec fn active_sessions_text(records: Seq<SessionRecordView>) -> Seq<char> {
    if records.len() == 0 {
        "No active Sessions."@
    } else {
        session_list_text(records)
    }
}

/// The list of active Sessions, or `No active Sessions.`.
pub fn active_sessions(records: &[SessionRecord]) -> (s: String)
    ensures
        s@ == active_sessions_text(records_view(records@)),
{
    if records.len() == 0 {
        return "No active Sessions.".to_string();
    }
    crate::session::active_session_list(records)
}

/// The metadata lines naming a Session: its id, then its name.
pub open spec fn session_fields_text(contents: Seq<char>, r: SessionRecordView) -> Seq<char> {
    continuation_field_text(field_text(contents, "Session ID"@, r.id), "Session Name"@, display_name(r.name))
}

fn push_session_fields(document: &mut MarkdownDocument, record: &SessionRecord)
    ensures
        final(document)@ == session_fields_text(old(document)@, record@),
{
    document.field("Session ID", record.id.as_str());
    match &record.name {
        Some(n) => {
            document.continuation_field("Session Name", n.as_str());
        },
        None => {
            document.continuation_field("Session Name", "(unnamed)");
        },
    }
}

pub open spec fn snapshot_text_doc(r: SessionRecordView, artifact: Seq<char>, contents: Seq<char>) -> Seq<char> {
    code_block_text(
        section_text(
            continuation_field_text(
                continuation_field_text(
                    session_fields_text(section_text(Seq::empty(), "Snapshot"@), r),
                    "Size"@,
                    size_text(r.size.cols, r.size.rows),
                ),
                "Artifact"@,
                artifact,
            ),
            "Contents"@,
        ),
        "text"@,
        contents,
    )
}

/// A snapshot: which Session, its size, where the artifact was written, and the
/// captured screen.
pub fn snapshot(record: &SessionRecord, artifact: &str, contents: &str) -> (s: String)
    ensures
        s@ == snapshot_text_doc(record@, artifact@, contents@),
{
    let mut document = MarkdownDocument::new();
    document.section("Snapshot");
    push_session_fields(&mut document, record);
    let size = record.size.to_string();
    document.continuation_field("Size", size.as_str());
    document.continuation_field("Artifact", artifact);
    document.section("Contents");
    document.code_block("text", contents);
    document.finish()
}

pub open spec fn resized_text(r: SessionRecordView) -> Seq<char> {
    continuation_field_text(
        session_fields_text(section_text(Seq::empty(), "Resized Session"@), r),
        "Size"@,
        size_text(r.size.cols, r.size.rows),
    )
}

/// The report of a resized Session and its new size.
pub fn resized_session(record: &SessionRecord) -> (s: String)
    ensures
        s@ == resized_text(record@),
{
    let mut document = MarkdownDocument::new();
    document.section("Resized Session");
    push_session_fields(&mut document, record);
    let size = record.size.to_string();
    document.continuation_field("Size", size.as_str());
    document.finish()
}

/// The report when `close` found no Session to close.
pub open spec fn no_closed_text() -> Seq<char> {
    text_text(section_text(Seq::empty(), "Closed Sessions"@), "No active Sessions."@)
}

pub fn no_closed_sessions() -> (s: String)
    ensures
        s@ == no_closed_text(),
{
    let mut document = MarkdownDocument::new();
    document.section("Closed Sessions");
    document.text("No active Sessions.");
    document.finish()
}

/// The fields of every closed Session, after `contents`.
pub open spec fn closed_list_text(contents: Seq<char>, records: Seq<SessionRecordView>) -> Seq<char>
    decreases records.len(),
{
    if records.len() == 0 {
        contents
    } else {
        session_fields_text(closed_list_text(contents, records.drop_last()), records.last())
    }
}

/// The fields and error of every Session that failed to close, after `contents`.
pub open spec fn failed_list_text(contents: Seq<char>, failures: Seq<(SessionRecordView, Seq<char>)>) -> Seq<char>
    decreases failures.len(),
{
    if failures.len() == 0 {
        contents
    } else {
        continuation_text_text(
            session_fields_text(failed_list_text(contents, failures.drop_last()), failures.last().0),
            "Error"@,
            trim(failures.last().1),
        )
    }
}

pub open spec fn failures_view(f: Seq<(SessionRecord, String)>) -> Seq<(SessionRecordView, Seq<char>)> {
    f.map_values(|p: (SessionRecord, String)| (p.0@, p.1@))
}

pub open spec fn close_report_text(
    successes: Seq<SessionRecordView>,
    failures: Seq<(SessionRecordView, Seq<char>)>,
) -> Seq<char> {
    let closed = section_text(Seq::empty(), "Closed Sessions"@);
    let closed = if successes.len() == 0 {
        text_text(closed, "None."@)
    } else {
        closed_list_text(closed, successes)
    };
    if failures.len() == 0 {
        closed
    } else {
        failed_list_text(section_text(closed, "Failed Sessions"@), failures)
    }
}

/// The report of a `close`: the Sessions closed, then those that failed, each
/// with its error.
pub fn close_report(successes: &[SessionRecord], failures: &[(SessionRecord, String)]) -> (s: String)
    ensures
        s@ == close_report_text(records_view(successes@), failures_view(failures@)),
{
    let mut document = MarkdownDocument::new();
    document.section("Closed Sessions");
    let ghost start = document@;
    if successes.len() == 0 {
        document.text("None.");
    } else {
        let mut i: usize = 0;
        while i < successes.len()
            invariant
                i <= successes.len(),
                document@ == closed_list_text(start, records_view(successes@).take(i as int)),
            decreases successes.len() - i,
        {
            push_session_fields(&mut document, &successes[i]);
            proof {
                assert(records_view(successes@).take(i + 1).drop_last() =~= records_view(successes@).take(i as int));
            }
            i += 1;
        }
        assert(records_view(successes@).take(successes.len() as int) =~= records_view(successes@));
    }
    if failures.len() > 0 {
        document.section("Failed Sessions");
        let ghost start2 = document@;
        let mut i: usize = 0;
        while i < failures.len()
            invariant
                i <= failures.len(),
                document@ == failed_list_text(start2, failures_view(failures@).take(i as int)),
            decreases failures.len() - i,
        {
            let (record, error) = &failures[i];
            push_session_fields(&mut document, record);
            let trimmed = crate::text::trim_str(error.as_str());
            document.continuation_text("Error", trimmed.as_str());
            proof {
                assert(failures_view(failures@).take(i + 1).drop_last() =~= failures_view(failures@).take(i as int));
            }
            i += 1;
        }
        assert(failures_view(failures@).take(failures.len() as int) =~= failures_view(failures@));
    }
    document.finish()
}

} // verus!
