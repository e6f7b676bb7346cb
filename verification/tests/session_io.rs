use neowright::session::{SessionRecord, SizeRecord};
use neowright::session_io::{settle_step, SessionIo, SettleStep};

fn io() -> SessionIo {
    SessionIo::new("abcdef0123456789".to_string(), "/tmp/project/.neowright".to_string())
}

#[test]
fn runtime_files_live_under_the_session_directory() {
    let io = io();
    let runtime = "/tmp/project/.neowright/sessions/abcdef0123456789";
    assert_eq!(io.runtime_dir(), runtime);
    assert_eq!(io.screen_path(), format!("{runtime}/screen.txt"));
    assert_eq!(io.desired_size_path(), format!("{runtime}/desired-size.json"));
    assert_eq!(io.pty_input_path(), format!("{runtime}/pty.sock"));
    assert_eq!(io.ready_file(), format!("{runtime}/ready"));
    assert_eq!(io.supervisor_log(), format!("{runtime}/supervisor.log"));
}

#[test]
fn control_socket_is_named_after_the_session() {
    assert_eq!(SessionIo::nvim_listen_path("/tmp", "abc"), "/tmp/neowright-abc.sock");
    assert_eq!(SessionIo::nvim_listen_path("/tmp/", "abc"), "/tmp/neowright-abc.sock");
}

#[test]
fn snapshot_name_carries_timestamp_and_id_prefix() {
    assert_eq!(
        io().snapshot_artifact_path(1700000000123),
        "/tmp/project/.neowright/snapshots/snapshot-1700000000123-abcdef01.txt"
    );
}

#[test]
fn layout_follows_the_record() {
    let record = SessionRecord {
        id: "0123456789abcdef".to_string(),
        name: None,
        cwd: "/work".to_string(),
        artifact_dir: "/work/.neowright".to_string(),
        size: SizeRecord { cols: 80, rows: 24 },
        supervisor_pid: 1,
        child_pid: None,
        listen: "/tmp/x.sock".to_string(),
    };
    assert_eq!(
        SessionIo::for_record(&record).runtime_dir(),
        "/work/.neowright/sessions/0123456789abcdef"
    );
}

#[test]
fn snapshot_waits_for_the_screen_to_settle() {
    assert_eq!(settle_step(100, 0), SettleStep::ReadSettled);
    assert_eq!(settle_step(5000, 5000), SettleStep::ReadSettled);
    assert_eq!(settle_step(99, 999), SettleStep::Retry);
    assert_eq!(settle_step(0, 1000), SettleStep::UseLast);
}
