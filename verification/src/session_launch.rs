//! Opening a Session: choosing its id and file layout, and the command line of
//! the supervisor process that owns it.

use vstd::prelude::*;

use crate::cli::{size_text, SessionSupervisorArgs, Size};
use crate::record::{opt_view, SessionRecord, SizeRecord};
use crate::session::{artifact_dir_for, artifact_dir_spec, generate_id};
use crate::session_io::{listen_path_spec, runtime_dir_spec, SessionIo, SessionIoView};
use crate::paths::path_join;

verus! {

broadcast use vstd::string::group_string_axioms;

/// What `open` asks for.
pub struct OpenSessionRequest {
    pub name: Option<String>,
    pub size: Size,
    pub neovim_args: Vec<String>,
}

/// Everything decided before the supervisor is started.
pub struct OpenPlan {
    pub runtime_dir: String,
    pub supervisor_log: String,
    pub supervisor: SessionSupervisorArgs,
}

pub open spec fn strings_view(v: Seq<String>) -> Seq<Seq<char>> {
    v.map_values(|s: String| s@)
}

/// Chooses a fresh Session ID and lays out the Session opened in `cwd`, with its
/// control socket in `temp_dir`.
pub fn plan_session(request: OpenSessionRequest, cwd: &str, temp_dir: &str) -> (p: OpenPlan)
    ensures
        p.supervisor.session@.len() == 32,
        forall|i: int|
            0 <= i < 32 ==> ('0' <= #[trigger] p.supervisor.session@[i] <= '9' || 'a'
                <= p.supervisor.session@[i] <= 'f'),
        opt_view(p.supervisor.name) == opt_view(request.name),
        p.supervisor.cwd@ == cwd@,
        p.supervisor.size == request.size,
        p.supervisor.artifact_dir@ == artifact_dir_spec(cwd@),
        p.supervisor.listen@ == listen_path_spec(temp_dir@, p.supervisor.session@),
        ({
            let io = SessionIoView { id: p.supervisor.session@, artifact_dir: artifact_dir_spec(cwd@) };
            &&& p.runtime_dir@ == runtime_dir_spec(io)
            &&& p.supervisor.ready_file@ == path_join(runtime_dir_spec(io), "ready"@)
            &&& p.supervisor_log@ == path_join(runtime_dir_spec(io), "supervisor.log"@)
        }),
        p.supervisor.neovim_args@ == request.neovim_args@,
{
    let id = generate_id();
    let artifact_dir = artifact_dir_for(cwd);
    let listen = SessionIo::nvim_listen_path(temp_dir, id.as_str());
    let io = SessionIo::new(id.clone(), artifact_dir.clone());
    let runtime_dir = io.runtime_dir();
    let ready_file = io.ready_file();
    let supervisor_log = io.supervisor_log();
    OpenPlan {
        runtime_dir,
        supervisor_log,
        supervisor: SessionSupervisorArgs {
            session: id,
            name: request.name,
            cwd: cwd.to_string(),
            size: request.size,
            artifact_dir,
            listen,
            ready_file,
            neovim_args: request.neovim_args,
        },
    }
}

/// The arguments after the executable that start the supervisor for `args`.
pub open spec fn supervisor_argv(args: SessionSupervisorArgs) -> Seq<Seq<char>> {
    let base = seq![
        "__session-supervisor"@,
        "--session"@,
        args.session@,
        "--cwd"@,
        args.cwd@,
        "--size"@,
        size_text(args.size.cols, args.size.rows),
        "--artifact-dir"@,
        args.artifact_dir@,
        "--listen"@,
        args.listen@,
        "--ready-file"@,
        args.ready_file@,
    ];
    let named = match args.name {
        Some(n) => base + seq!["--name"@, n@],
        None => base,
    };
    if args.neovim_args@.len() > 0 {
        named + seq!["--"@] + strings_view(args.neovim_args@)
    } else {
        named
    }
}

fn push_arg(argv: &mut Vec<String>, s: &str)
    ensures
        strings_view(final(argv)@) == strings_view(old(argv)@).push(s@),
{
    argv.push(s.to_string());
    assert(strings_view(argv@) =~= strings_view(old(argv)@).push(s@));
}

/// The supervisor's command line: the hidden `__session-supervisor` command with
/// every setting of the Session, then `--` and the Neovim arguments, if any.
pub fn supervisor_command_args(args: &SessionSupervisorArgs) -> (argv: Vec<String>)
    ensures
        strings_view(argv@) == supervisor_argv(*args),
{
    let mut argv: Vec<String> = Vec::new();
    push_arg(&mut argv, "__session-supervisor");
    push_arg(&mut argv, "--session");
    push_arg(&mut argv, args.session.as_str());
    push_arg(&mut argv, "--cwd");
    push_arg(&mut argv, args.cwd.as_str());
    push_arg(&mut argv, "--size");
    let size = args.size.to_string();
    push_arg(&mut argv, size.as_str());
    push_arg(&mut argv, "--artifact-dir");
    push_arg(&mut argv, args.artifact_dir.as_str());
    push_arg(&mut argv, "--listen");
    push_arg(&mut argv, args.listen.as_str());
    push_arg(&mut argv, "--ready-file");
    push_arg(&mut argv, args.ready_file.as_str());
    let ghost base = strings_view(argv@);
    if let Some(n) = &args.name {
        push_arg(&mut argv, "--name");
        push_arg(&mut argv, n.as_str());
    }
    let ghost named = strings_view(argv@);
    if args.neovim_args.len() > 0 {
        push_arg(&mut argv, "--");
        let mut i: usize = 0;
        while i < args.neovim_args.len()
            invariant
                i <= args.neovim_args.len(),
                strings_view(argv@) == named + seq!["--"@] + strings_view(args.neovim_args@.take(i as int)),
            decreases args.neovim_args.len() - i,
        {
            push_arg(&mut argv, args.neovim_args[i].as_str());
            i += 1;
            assert(strings_view(args.neovim_args@.take(i as int)) =~= strings_view(
                args.neovim_args@.take(i - 1),
            ).push(args.neovim_args@[i - 1]@));
            assert(strings_view(argv@) =~= named + seq!["--"@] + strings_view(args.neovim_args@.take(i as int)));
        }
        assert(args.neovim_args@.take(args.neovim_args.len() as int) =~= args.neovim_args@);
    }
    assert(strings_view(argv@) =~= supervisor_argv(*args));
    argv
}

/// The record of the Session that `args` opened, once its supervisor runs as
/// process `supervisor_pid`.
pub fn opened_record(args: &SessionSupervisorArgs, supervisor_pid: u32) -> (r: SessionRecord)
    ensures
        r@.id == args.session@,
        r@.name == opt_view(args.name),
        r@.cwd == args.cwd@,
        r@.artifact_dir == args.artifact_dir@,
        r@.size == (SizeRecord { cols: args.size.cols, rows: args.size.rows }),
        r@.supervisor_pid == supervisor_pid,
        r@.child_pid is None,
        r@.listen == args.listen@,
{
    SessionRecord {
        id: args.session.clone(),
        name: match &args.name {
            Some(n) => Some(n.clone()),
            None => None,
        },
        cwd: args.cwd.clone(),
        artifact_dir: args.artifact_dir.clone(),
        size: SizeRecord::from_size(args.size),
        supervisor_pid,
        child_pid: None,
        listen: args.listen.clone(),
    }
}

} // verus!
