use neowright::cli::{SessionSupervisorArgs, Size};
use neowright::nvim::NvimValue;
use neowright::session::SizeRecord;
use neowright::session_launch::{opened_record, plan_session, supervisor_command_args, OpenSessionRequest};
use neowright::session_supervisor::{
    pending_resize, readiness_timeout_error, requests_status_report, rpc_probe_ready, rpc_timeout_error,
    socket_timeout_error, status_report_reply, supervisor_step, SupervisorStep,
};

fn supervisor_args(name: Option<&str>, neovim_args: &[&str]) -> SessionSupervisorArgs {
    SessionSupervisorArgs {
        session: "abc".to_string(),
        name: name.map(str::to_string),
        cwd: "/work".to_string(),
        size: Size { cols: 100, rows: 30 },
        artifact_dir: "/work/.neowright".to_string(),
        listen: "/tmp/neowright-abc.sock".to_string(),
        ready_file: "/work/.neowright/sessions/abc/ready".to_string(),
        neovim_args: neovim_args.iter().map(|a| a.to_string()).collect(),
    }
}

#[test]
fn supervisor_command_line_carries_every_setting() {
    let argv = supervisor_command_args(&supervisor_args(None, &[]));
    assert_eq!(
        argv,
        vec![
            "__session-supervisor",
            "--session",
            "abc",
            "--cwd",
            "/work",
            "--size",
            "100x30",
            "--artifact-dir",
            "/work/.neowright",
            "--listen",
            "/tmp/neowright-abc.sock",
            "--ready-file",
            "/work/.neowright/sessions/abc/ready",
        ]
    );
}

#[test]
fn supervisor_command_line_appends_name_and_neovim_arguments() {
    let argv = supervisor_command_args(&supervisor_args(Some("main"), &["--clean", "file.txt"]));
    assert_eq!(
        argv[13..],
        ["--name", "main", "--", "--clean", "file.txt"]
    );
}

#[test]
fn plan_lays_out_a_fresh_session() {
    let plan = plan_session(
        OpenSessionRequest {
            name: Some("main".to_string()),
            size: Size { cols: 40, rows: 10 },
            neovim_args: vec!["--clean".to_string()],
        },
        "/work",
        "/tmp",
    );
    let id = plan.supervisor.session.clone();
    assert_eq!(id.len(), 32);
    assert!(id.chars().all(|c| c.is_ascii_digit() || ('a'..='f').contains(&c)));
    assert_eq!(plan.supervisor.name.as_deref(), Some("main"));
    assert_eq!(plan.supervisor.cwd, "/work");
    assert_eq!(plan.supervisor.size, Size { cols: 40, rows: 10 });
    assert_eq!(plan.supervisor.artifact_dir, "/work/.neowright");
    assert_eq!(plan.supervisor.listen, format!("/tmp/neowright-{id}.sock"));
    assert_eq!(plan.runtime_dir, format!("/work/.neowright/sessions/{id}"));
    assert_eq!(plan.supervisor.ready_file, format!("/work/.neowright/sessions/{id}/ready"));
    assert_eq!(plan.supervisor_log, format!("/work/.neowright/sessions/{id}/supervisor.log"));
    assert_eq!(plan.supervisor.neovim_args, vec!["--clean".to_string()]);
}

#[test]
fn opened_record_copies_the_supervisor_settings() {
    let record = opened_record(&supervisor_args(Some("main"), &[]), 4242);
    assert_eq!(record.id, "abc");
    assert_eq!(record.name.as_deref(), Some("main"));
    assert_eq!(record.cwd, "/work");
    assert_eq!(record.artifact_dir, "/work/.neowright");
    assert_eq!(record.size, SizeRecord { cols: 100, rows: 30 });
    assert_eq!(record.supervisor_pid, 4242);
    assert_eq!(record.child_pid, None);
    assert_eq!(record.listen, "/tmp/neowright-abc.sock");
}

#[test]
fn status_query_is_found_anywhere_in_a_chunk() {
    assert!(requests_status_report(b"\x1b[5n"));
    assert!(requests_status_report(b"abc\x1b[5ndef"));
    assert!(!requests_status_report(b"\x1b[5"));
    assert!(!requests_status_report(b"\x1b[6n"));
    assert!(!requests_status_report(b""));
    assert_eq!(status_report_reply(), b"\x1b[0n".to_vec());
}

#[test]
fn resize_is_pending_only_for_a_different_size() {
    let current = SizeRecord { cols: 80, rows: 24 };
    assert_eq!(pending_resize(None, current), None);
    assert_eq!(pending_resize(Some(current), current), None);
    let wanted = SizeRecord { cols: 100, rows: 30 };
    assert_eq!(pending_resize(Some(wanted), current), Some(wanted));
}

#[test]
fn shutdown_wins_over_an_exited_child() {
    assert_eq!(supervisor_step(true, true), SupervisorStep::KillChildAndStop);
    assert_eq!(supervisor_step(true, false), SupervisorStep::KillChildAndStop);
    assert_eq!(supervisor_step(false, true), SupervisorStep::Stop);
    assert_eq!(supervisor_step(false, false), SupervisorStep::ApplyDesiredSize);
}

#[test]
fn readiness_probe_needs_true() {
    assert!(rpc_probe_ready(&NvimValue::Bool(true)));
    assert!(!rpc_probe_ready(&NvimValue::Bool(false)));
    assert!(!rpc_probe_ready(&NvimValue::Integer(1)));
    assert!(!rpc_probe_ready(&NvimValue::Nil));
}

#[test]
fn timeout_errors_carry_what_was_seen() {
    assert_eq!(readiness_timeout_error(" \n"), "timed out waiting for Session readiness");
    assert_eq!(
        readiness_timeout_error("\nnvim: not found\n"),
        "timed out waiting for Session readiness\n\nSupervisor log:\n```\nnvim: not found\n```"
    );
    assert_eq!(rpc_timeout_error(""), "timed out waiting for Neovim RPC readiness");
    assert_eq!(
        rpc_timeout_error("refused"),
        "timed out waiting for Neovim RPC readiness: refused"
    );
    assert_eq!(
        socket_timeout_error("/tmp/s.sock"),
        "timed out waiting for Neovim control socket `/tmp/s.sock`"
    );
}
