use neowright::cli::{CloseArgs, EvalArgs, ExecArgs, KeysArgs, TargetSelector, WaitArgs};
use neowright::commands::close::{run as close_run, targets};
use neowright::commands::keys::{delivery, run as keys_run, KeysDelivery};
use neowright::commands::skills::{install_target, installed_message, validate_relative_skill_path};
use neowright::commands::target_session::TargetSession;
use neowright::commands::wait::{run as wait_run, WaitStep};
use neowright::commands::{output_result, report, status_result, usage_error_report, Report};
use neowright::commands::{eval, exec, list, open, resize, snapshot, CommandFailure, CommandOutput};
use neowright::nvim::NvimValue;
use neowright::session::{SessionRecord, SessionRegistry, SizeRecord};
use neowright::session_control::{close_command, modified_buffers_lua, resize_command, resize_plan};
use neowright::cli::Size;
use std::time::Duration;

fn target() -> TargetSelector {
    TargetSelector { session: None, name: None }
}

fn record(id: &str, name: Option<&str>) -> SessionRecord {
    SessionRecord {
        id: id.to_string(),
        name: name.map(str::to_string),
        cwd: "/work".to_string(),
        artifact_dir: "/work/.neowright".to_string(),
        size: SizeRecord { cols: 40, rows: 10 },
        supervisor_pid: 7,
        child_pid: None,
        listen: "/tmp/s.sock".to_string(),
    }
}

#[test]
fn eval_shows_result_then_lua() {
    let args = EvalArgs { target: target(), raw: false, lua: "return { answer = 42 }".to_string() };
    let result = NvimValue::Dict(vec![("answer".to_string(), NvimValue::Integer(42))]);
    assert_eq!(
        eval::run(&args, &result),
        CommandOutput::Markdown(
            "### Result\n```text\n{ answer = 42 }\n```\n\n### Ran Lua\n```lua\nreturn { answer = 42 }\n```\n"
                .to_string()
        )
    );
}

#[test]
fn eval_raw_prints_the_bare_value() {
    let args = EvalArgs { target: target(), raw: true, lua: "return 'hello'".to_string() };
    assert_eq!(
        eval::run(&args, &NvimValue::String("hello".to_string())),
        CommandOutput::Raw("hello\n".to_string())
    );
    let table = NvimValue::Dict(vec![("answer".to_string(), NvimValue::Integer(42))]);
    assert_eq!(eval::run(&args, &table), CommandOutput::Raw("{\"answer\":42}\n".to_string()));
}

#[test]
fn exec_drops_one_leading_colon() {
    let args = ExecArgs { target: target(), command: ":echo 'from exec'".to_string() };
    assert_eq!(exec::command_text(&args), "echo 'from exec'");
    let twice = ExecArgs { target: target(), command: "::w".to_string() };
    assert_eq!(exec::command_text(&twice), ":w");
    assert_eq!(
        exec::run(&args, "from exec"),
        CommandOutput::Markdown(
            "### Output\n```\nfrom exec\n```\n\n### Ran Command\n```vim\necho 'from exec'\n```\n".to_string()
        )
    );
}

#[test]
fn keys_go_over_rpc_unless_pty_is_asked() {
    let rpc = KeysArgs { target: target(), pty: false, keys: "ihello<Esc>".to_string() };
    assert_eq!(delivery(&rpc), Ok(KeysDelivery::Rpc("ihello<Esc>".to_string())));
    assert_eq!(
        keys_run(&rpc),
        CommandOutput::Markdown("### Sent Keys\n```\nihello<Esc>\n```\n".to_string())
    );
    let pty = KeysArgs { target: target(), pty: true, keys: "ihello<Esc>".to_string() };
    assert_eq!(delivery(&pty), Ok(KeysDelivery::Pty(b"ihello\x1b".to_vec())));
    assert_eq!(
        keys_run(&pty),
        CommandOutput::Markdown("### Sent PTY Keys\n```\nihello<Esc>\n```\n".to_string())
    );
}

#[test]
fn pty_keys_with_unsupported_notation_are_refused_before_sending() {
    let pty = KeysArgs { target: target(), pty: true, keys: "i<leader>sent<Esc>".to_string() };
    let error = delivery(&pty).unwrap_err();
    assert!(error.starts_with("unsupported PTY key notation: <leader>"));
}

#[test]
fn wait_finishes_retries_or_times_out() {
    let args = WaitArgs {
        target: target(),
        timeout: Duration::from_millis(500),
        interval: Duration::from_millis(100),
        condition: "return false".to_string(),
    };
    assert_eq!(wait_run(&args, &NvimValue::Bool(false), false), WaitStep::Retry);
    assert_eq!(
        wait_run(&args, &NvimValue::Bool(false), true),
        WaitStep::TimedOut(
            "timed out waiting for Lua condition\n\n### Last Result\n```text\nfalse\n```\n\n### Ran Lua\n```lua\nreturn false\n```\n"
                .to_string()
        )
    );
    assert_eq!(
        wait_run(&args, &NvimValue::Integer(1), true),
        WaitStep::Done(CommandOutput::Markdown(
            "### Result\n```text\n1\n```\n\n### Ran Lua\n```lua\nreturn false\n```\n".to_string()
        ))
    );
}

#[test]
fn snapshot_reports_session_size_artifact_and_contents() {
    let r = record("abc", Some("main"));
    assert_eq!(
        snapshot::run(&r, "/work/.neowright/snapshots/snapshot-1-abc.txt", "hello\n     "),
        CommandOutput::Markdown(
            "### Snapshot\n- Session ID: `abc`\n  Session Name: `main`\n  Size: `40x10`\n  Artifact: `/work/.neowright/snapshots/snapshot-1-abc.txt`\n\n### Contents\n```text\nhello\n     \n```\n"
                .to_string()
        )
    );
}

#[test]
fn resize_reports_the_new_size() {
    let mut r = record("abc", None);
    r.size = SizeRecord { cols: 50, rows: 12 };
    assert_eq!(
        resize::run(&r),
        CommandOutput::Markdown(
            "### Resized Session\n- Session ID: `abc`\n  Session Name: `(unnamed)`\n  Size: `50x12`\n".to_string()
        )
    );
    assert_eq!(resize_command(Size { cols: 50, rows: 12 }), "set columns=50 lines=12");
}

#[test]
fn open_and_list_report_records() {
    let r = record("abc", Some("main"));
    assert_eq!(
        open::run(&r),
        "Session opened.\n- Session ID: `abc`\n- Session Name: `main`\n- Opened From: `/work`\n- Size: `40x10`\n- Artifact Directory: `/work/.neowright`"
    );
    assert_eq!(list::run(&[]), "No active Sessions.");
    assert!(list::run(&[r]).starts_with("Active Sessions:\n- Session ID: `abc`"));
}

fn registry_with(records: Vec<SessionRecord>) -> SessionRegistry {
    let mut registry = SessionRegistry::load_global(Some("/state"), None).expect("registry");
    registry.load_records(records);
    registry
}

#[test]
fn close_targets_all_or_the_resolved_session() {
    let registry = registry_with(vec![record("a", Some("one")), record("b", Some("two"))]);
    let all = CloseArgs { target: target(), force: false, all: true };
    assert_eq!(targets(&registry, &all).expect("all").len(), 2);
    let by_name = CloseArgs {
        target: TargetSelector { session: None, name: Some("two".to_string()) },
        force: false,
        all: false,
    };
    let chosen = targets(&registry, &by_name).expect("by name");
    assert_eq!(chosen.len(), 1);
    assert_eq!(chosen[0].id, "b");
    let implicit = CloseArgs { target: target(), force: false, all: false };
    assert!(targets(&registry, &implicit).unwrap_err().starts_with("multiple active Sessions"));
}

#[test]
fn close_report_lists_closed_and_failed_sessions() {
    assert_eq!(
        close_run(&[], &[]),
        Ok(CommandOutput::Markdown("### Closed Sessions\nNo active Sessions.\n".to_string()))
    );
    assert_eq!(
        close_run(&[record("a", Some("clean"))], &[]),
        Ok(CommandOutput::Markdown(
            "### Closed Sessions\n- Session ID: `a`\n  Session Name: `clean`\n".to_string()
        ))
    );
    let failed = close_run(&[], &[(record("b", Some("dirty")), "unsaved changes\n".to_string())]);
    assert_eq!(
        failed,
        Err("### Closed Sessions\nNone.\n\n### Failed Sessions\n- Session ID: `b`\n  Session Name: `dirty`\n  Error: unsaved changes\n".to_string())
    );
}

#[test]
fn close_refuses_unsaved_changes_unless_forced() {
    let dirty = NvimValue::Array(vec![NvimValue::String("a.txt".to_string())]);
    assert_eq!(
        close_command(false, Some(&dirty)),
        Err("Session has unsaved changes; use `--force` to discard them (1)".to_string())
    );
    assert_eq!(close_command(false, Some(&NvimValue::Array(vec![]))), Ok("qall".to_string()));
    assert_eq!(close_command(true, Some(&dirty)), Ok("qall!".to_string()));
    assert_eq!(close_command(true, None), Ok("qall!".to_string()));
    assert!(modified_buffers_lua().contains("vim.bo[buffer].modified"));
}

#[test]
fn target_session_resolves_through_the_registry() {
    let registry = registry_with(vec![record("only", None)]);
    let session = TargetSession::resolve(&registry, &target()).ok().expect("one session");
    assert_eq!(session.record().id, "only");
    assert_eq!(session.io().runtime_dir(), "/work/.neowright/sessions/only");
    let empty = registry_with(vec![]);
    assert_eq!(
        TargetSession::resolve(&empty, &target()).err(),
        Some("no active Sessions; pass --session or --name after opening one".to_string())
    );
}

#[test]
fn skills_install_into_the_agents_directory() {
    assert_eq!(
        install_target(false, None, Some("/home/me")),
        Ok(("global".to_string(), "/home/me/.agents/skills/neowright".to_string()))
    );
    assert_eq!(
        install_target(true, Some("/work"), Some("/home/me")),
        Ok(("local".to_string(), "/work/.agents/skills/neowright".to_string()))
    );
    assert_eq!(
        install_target(false, None, None),
        Err("HOME must be set to install the Neowright Agent Skill globally".to_string())
    );
    assert_eq!(
        installed_message("global", "/home/me/.agents/skills/neowright", true),
        "Installed Neowright Agent Skill.\n\n- Scope: `global`\n- Path: `/home/me/.agents/skills/neowright`\n- Overwrote existing skill files"
    );
}

#[test]
fn skill_paths_must_stay_inside_the_skill_directory() {
    assert_eq!(validate_relative_skill_path("SKILL.md"), Ok(()));
    assert_eq!(validate_relative_skill_path("docs/..hidden"), Ok(()));
    assert_eq!(
        validate_relative_skill_path("../escape.md"),
        Err("bundled Neowright Agent Skill contains unsafe path `../escape.md`".to_string())
    );
    assert!(validate_relative_skill_path("/etc/passwd").is_err());
    assert!(validate_relative_skill_path("a/../b").is_err());
    assert!(validate_relative_skill_path("a/..").is_err());
}

#[test]
fn failures_and_statuses_wrap_messages() {
    let failure = CommandFailure::from_message("boom".to_string());
    assert_eq!(failure, CommandFailure { message: "boom".to_string(), stdout: None });
    assert_eq!(
        CommandOutput::from_status("ok".to_string()),
        CommandOutput::Status("ok".to_string())
    );
}

#[test]
fn exec_runs_the_same_command_with_or_without_colon() {
    let with = ExecArgs { target: target(), command: ":write".to_string() };
    let without = ExecArgs { target: target(), command: "write".to_string() };
    assert_eq!(exec::command_text(&with), exec::command_text(&without));
    assert_eq!(exec::run(&with, ""), exec::run(&without, ""));
}

#[test]
fn reports_choose_streams_and_exit_status() {
    assert_eq!(
        report(Ok(CommandOutput::Status("Session opened.".to_string()))),
        Report { stdout: "### Status\nSession opened.\n".to_string(), stderr: String::new(), exit_code: 0 }
    );
    assert_eq!(
        report(Ok(CommandOutput::Raw("42\n".to_string()))),
        Report { stdout: "42\n".to_string(), stderr: String::new(), exit_code: 0 }
    );
    assert_eq!(
        report(Ok(CommandOutput::Markdown("### Sent Keys\n".to_string()))),
        Report { stdout: "### Sent Keys\n".to_string(), stderr: String::new(), exit_code: 0 }
    );
    assert_eq!(
        report(Err(CommandFailure::from_message(" boom\n".to_string()))),
        Report { stdout: String::new(), stderr: "### Error\nboom\n".to_string(), exit_code: 1 }
    );
    assert_eq!(
        report(Err(CommandFailure { message: "late".to_string(), stdout: Some("partial".to_string()) })),
        Report { stdout: "partial".to_string(), stderr: "### Error\nlate\n".to_string(), exit_code: 1 }
    );
    assert_eq!(
        usage_error_report("error: unrecognized subcommand 'nope'"),
        Report {
            stdout: String::new(),
            stderr: "### Error\nerror: unrecognized subcommand 'nope'\n".to_string(),
            exit_code: 2,
        }
    );
}

#[test]
fn command_results_become_outputs_or_failures() {
    assert_eq!(status_result(Ok("done".to_string())), Ok(CommandOutput::Status("done".to_string())));
    assert_eq!(
        status_result(Err("boom".to_string())),
        Err(CommandFailure { message: "boom".to_string(), stdout: None })
    );
    let doc = CommandOutput::Markdown("### Sent Keys\n".to_string());
    assert_eq!(output_result(Ok(CommandOutput::Markdown("### Sent Keys\n".to_string()))), Ok(doc));
    assert_eq!(
        output_result(Err("late".to_string())),
        Err(CommandFailure { message: "late".to_string(), stdout: None })
    );
}

#[test]
fn resize_plan_updates_only_the_size() {
    let r = record("abc", Some("main"));
    let plan = resize_plan(&r, Size { cols: 50, rows: 12 });
    assert_eq!(plan.command, "set columns=50 lines=12");
    assert_eq!(plan.desired, SizeRecord { cols: 50, rows: 12 });
    let mut expected = record("abc", Some("main"));
    expected.size = SizeRecord { cols: 50, rows: 12 };
    assert_eq!(plan.record, expected);
}
