use neowright::output::{
    active_sessions, error_document, fence_for, opened_session, ran_command, result_with_lua,
    sent_keys, status_document, timed_out_lua_condition, MarkdownDocument,
};
use neowright::session::{SessionRecord, SizeRecord};

fn record() -> SessionRecord {
    SessionRecord {
        id: "abc".to_string(),
        name: Some("main".to_string()),
        cwd: "/tmp/project".into(),
        artifact_dir: "/tmp/project/.neowright".into(),
        size: SizeRecord { cols: 80, rows: 24 },
        supervisor_pid: 1,
        child_pid: Some(2),
        listen: "/tmp/neowright-abc.sock".into(),
    }
}

#[test]
fn status_and_error_documents_use_stable_sections() {
    assert_eq!(status_document("ok"), "### Status\nok\n");
    assert_eq!(error_document(" bad\n"), "### Error\nbad\n");
}

#[test]
fn document_separates_sections_with_one_blank_line() {
    let mut document = MarkdownDocument::new();
    document.section("One").text("a").section("Two").text("b");

    assert_eq!(document.finish(), "### One\na\n\n### Two\nb\n");
}

#[test]
fn document_separates_intro_text_from_first_section() {
    let mut document = MarkdownDocument::new();
    document.text("intro").section("Details").text("body");

    assert_eq!(document.finish(), "intro\n\n### Details\nbody\n");
}

#[test]
fn fields_render_as_agent_readable_metadata() {
    let mut document = MarkdownDocument::new();
    document
        .section("Snapshot")
        .field("Session ID", "abc")
        .continuation_field("Session Name", "main");

    assert_eq!(
        document.finish(),
        "### Snapshot\n- Session ID: `abc`\n  Session Name: `main`\n"
    );
}

#[test]
fn code_block_adds_trailing_newline_before_closing_fence() {
    let mut document = MarkdownDocument::new();
    document.section("Result").code_block("text", "hello");

    assert_eq!(document.finish(), "### Result\n```text\nhello\n```\n");
}

#[test]
fn code_block_uses_longer_fence_when_contents_contain_backticks() {
    let mut document = MarkdownDocument::new();
    document.section("Result").code_block("text", "a ``` b");

    assert_eq!(document.finish(), "### Result\n````text\na ``` b\n````\n");
}

#[test]
fn active_sessions_status_has_stable_bullet_shape() {
    assert_eq!(
        active_sessions(&[record()]),
        "Active Sessions:\n- Session ID: `abc`\n  Session Name: `main`\n  Opened From: `/tmp/project`\n  Size: `80x24`"
    );
}

#[test]
fn active_sessions_reports_an_empty_registry() {
    assert_eq!(active_sessions(&[]), "No active Sessions.");
}

#[test]
fn text_drops_only_trailing_newlines() {
    let mut document = MarkdownDocument::new();
    document.text("a\n\nb\n\n\n");
    assert_eq!(document.finish(), "a\n\nb\n");
}

#[test]
fn error_document_trims_unicode_whitespace() {
    assert_eq!(
        error_document("\u{3000}\t boom \u{a0}\n"),
        "### Error\nboom\n"
    );
}

#[test]
fn continuation_text_is_unquoted() {
    let mut document = MarkdownDocument::new();
    document.continuation_text("Path", "/tmp/x");
    assert_eq!(document.finish(), "  Path: /tmp/x\n");
}

#[test]
fn code_block_keeps_a_trailing_newline_and_no_language() {
    let mut document = MarkdownDocument::new();
    document.code_block("", "x\n");
    assert_eq!(document.finish(), "```\nx\n```\n");
}

#[test]
fn fence_is_longer_than_every_backtick_run() {
    assert_eq!(fence_for(""), "```");
    assert_eq!(fence_for("`` ` "), "```");
    assert_eq!(fence_for("a````b``"), "`````");
}

#[test]
fn lua_result_documents_show_result_then_chunk() {
    assert_eq!(
        result_with_lua("1", "return 1"),
        "### Result\n```text\n1\n```\n\n### Ran Lua\n```lua\nreturn 1\n```\n"
    );
    assert_eq!(
        timed_out_lua_condition("false", "return false"),
        "timed out waiting for Lua condition\n\n### Last Result\n```text\nfalse\n```\n\n### Ran Lua\n```lua\nreturn false\n```\n"
    );
}

#[test]
fn ran_command_omits_blank_output() {
    assert_eq!(
        ran_command(" \n", "write"),
        "### Ran Command\n```vim\nwrite\n```\n"
    );
    assert_eq!(
        ran_command("done", "echo 'done'"),
        "### Output\n```\ndone\n```\n\n### Ran Command\n```vim\necho 'done'\n```\n"
    );
}

#[test]
fn sent_keys_uses_the_given_title() {
    assert_eq!(
        sent_keys("Sent PTY Keys", "ihello<Esc>"),
        "### Sent PTY Keys\n```\nihello<Esc>\n```\n"
    );
}

#[test]
fn opened_session_lists_every_field() {
    let mut unnamed = record();
    unnamed.name = None;
    assert_eq!(
        opened_session(&unnamed),
        "Session opened.\n- Session ID: `abc`\n- Session Name: `(unnamed)`\n- Opened From: `/tmp/project`\n- Size: `80x24`\n- Artifact Directory: `/tmp/project/.neowright`"
    );
}
