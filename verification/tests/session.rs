use neowright::cli::TargetSelector;
use neowright::session::{artifact_dir_for, generate_id, SessionRecord, SessionRegistry, SizeRecord};

fn record(id: &str, name: Option<&str>, supervisor_pid: u32) -> SessionRecord {
    SessionRecord {
        id: id.to_string(),
        name: name.map(str::to_string),
        cwd: "/tmp/project".to_string(),
        artifact_dir: "/tmp/project/.neowright".to_string(),
        size: SizeRecord { cols: 240, rows: 70 },
        supervisor_pid,
        child_pid: None,
        listen: format!("/tmp/{id}.sock"),
    }
}

fn registry() -> SessionRegistry {
    SessionRegistry::load_global(Some("/state"), None).expect("registry path")
}

fn selector(session: Option<&str>, name: Option<&str>) -> TargetSelector {
    TargetSelector {
        session: session.map(str::to_string),
        name: name.map(str::to_string),
    }
}

#[test]
fn generated_ids_are_non_empty_and_distinct() {
    let first = generate_id();
    let second = generate_id();

    assert_eq!(first.len(), 32);
    assert_ne!(first, second);
}

#[test]
fn artifact_dir_is_project_local() {
    assert_eq!(artifact_dir_for("/tmp/project"), "/tmp/project/.neowright");
}

#[test]
fn registry_path_prefers_xdg_state_home() {
    let reg = SessionRegistry::load_global(Some("/x"), Some("/home/u")).unwrap();
    assert_eq!(reg.path(), "/x/neowright/registry.json");
    let reg = SessionRegistry::load_global(None, Some("/home/u/")).unwrap();
    assert_eq!(reg.path(), "/home/u/.local/state/neowright/registry.json");
    assert_eq!(
        SessionRegistry::load_global(None, None).err(),
        Some("HOME or XDG_STATE_HOME must be set for the Session Registry".to_string())
    );
}

#[test]
fn registry_rejects_duplicate_active_names_in_memory() {
    let mut reg = registry();
    reg.insert(record("first", Some("work"), 1)).expect("insert first record");
    let error = reg
        .insert(record("second", Some("work"), 1))
        .expect_err("duplicate active name should be rejected");

    assert_eq!(error, "Session Name `work` is already active");
    assert_eq!(reg.active_sessions().len(), 1);
}

#[test]
fn registry_allows_reusing_stale_names_after_pruning() {
    let mut reg = registry();
    reg.load_records(vec![record("stale", Some("work"), 0)]);
    reg.retain_active(&vec![false]);
    reg.insert(record("active", Some("work"), 7)).expect("reuse stale name");

    let records = reg.active_sessions();
    assert_eq!(records.len(), 1);
    assert_eq!(records[0].id, "active");
}

#[test]
fn insert_replaces_a_record_with_the_same_id() {
    let mut reg = registry();
    reg.insert(record("a", Some("one"), 1)).unwrap();
    reg.insert(record("b", None, 1)).unwrap();
    reg.insert(record("a", Some("one"), 9)).unwrap();
    let records = reg.active_sessions();
    assert_eq!(records.len(), 2);
    assert_eq!(records[0].id, "b");
    assert_eq!(records[1].supervisor_pid, 9);
}

#[test]
fn update_and_remove_target_by_id() {
    let mut reg = registry();
    reg.insert(record("a", Some("one"), 1)).unwrap();
    let mut changed = record("a", Some("one"), 1);
    changed.size = SizeRecord { cols: 50, rows: 12 };
    reg.update(changed).unwrap();
    assert_eq!(reg.active_sessions()[0].size, SizeRecord { cols: 50, rows: 12 });
    assert_eq!(
        reg.update(record("zzz", None, 1)),
        Err("no active Session found with Session ID `zzz`".to_string())
    );
    reg.remove("a");
    assert!(reg.active_sessions().is_empty());
}

#[test]
fn resolve_target_by_id_name_and_implicitly() {
    let mut reg = registry();
    assert_eq!(
        reg.resolve_target(&selector(None, None)),
        Err("no active Sessions; pass --session or --name after opening one".to_string())
    );
    reg.insert(record("a", Some("one"), 1)).unwrap();
    assert_eq!(reg.resolve_target(&selector(None, None)).unwrap().id, "a");
    reg.insert(record("b", None, 1)).unwrap();
    assert_eq!(reg.resolve_target(&selector(Some("b"), None)).unwrap().id, "b");
    assert_eq!(reg.resolve_target(&selector(None, Some("one"))).unwrap().id, "a");
    assert_eq!(
        reg.resolve_target(&selector(None, Some("two"))),
        Err("no active Session found with Session Name `two`".to_string())
    );
    assert_eq!(
        reg.resolve_target(&selector(Some("c"), None)),
        Err("no active Session found with Session ID `c`".to_string())
    );
    let error = reg.resolve_target(&selector(None, None)).unwrap_err();
    assert!(error.starts_with("multiple active Sessions; pass --session or --name\n\nActive Sessions:\n- Session ID: `a`"));
    assert!(error.contains("Session Name: `(unnamed)`"));
}

#[test]
fn ensure_name_available_ignores_unnamed_sessions() {
    let mut reg = registry();
    reg.insert(record("a", Some("one"), 1)).unwrap();
    assert!(reg.ensure_name_available(None).is_ok());
    assert!(reg.ensure_name_available(Some("two")).is_ok());
    assert!(reg.ensure_name_available(Some("one")).is_err());
}

#[test]
fn inserting_the_same_record_twice_is_one_insert() {
    let mut once = registry();
    once.insert(record("b", Some("other"), 1)).unwrap();
    once.insert(record("a", Some("work"), 2)).unwrap();
    let mut twice = registry();
    twice.insert(record("b", Some("other"), 1)).unwrap();
    twice.insert(record("a", Some("work"), 2)).unwrap();
    twice.insert(record("a", Some("work"), 2)).unwrap();
    assert_eq!(once.active_sessions(), twice.active_sessions());
}
