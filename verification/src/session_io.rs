//! Where a Session keeps its files: the runtime directory under the project's
//! Artifact Directory, the screen capture, the resize request, the sockets, and
//! the snapshot artifacts.

use vstd::prelude::*;

use crate::paths::{join, path_join};
use crate::record::SessionRecord;
use crate::text::{decimal, push_decimal, push_str};

verus! {

broadcast use vstd::string::group_string_axioms;

/// The file layout of one Session.
pub struct SessionIo {
    id: String,
    artifact_dir: String,
}

pub struct SessionIoView {
    pub id: Seq<char>,
    pub artifact_dir: Seq<char>,
}

impl View for SessionIo {
    type V = SessionIoView;

    closed spec fn view(&self) -> SessionIoView {
        SessionIoView { id: self.id@, artifact_dir: self.artifact_dir@ }
    }
}

/// `artifact_dir/sessions/id`.
pub open spec fn runtime_dir_spec(io: SessionIoView) -> Seq<char> {
    path_join(path_join(io.artifact_dir, "sessions"@), io.id)
}

/// The Neovim control socket of a Session: `neowright-ID.sock` in `temp_dir`.
pub open spec fn listen_path_spec(temp_dir: Seq<char>, id: Seq<char>) -> Seq<char> {
    path_join(temp_dir, "neowright-"@ + id + ".sock"@)
}

/// `snapshots/snapshot-TIMESTAMP-IDPREFIX.txt` under the Artifact Directory.
pub open spec fn snapshot_path_spec(io: SessionIoView, timestamp_ms: u64) -> Seq<char> {
    path_join(
        path_join(io.artifact_dir, "snapshots"@),
        "snapshot-"@ + decimal(timestamp_ms as nat) + seq!['-'] + io.id.take(8) + ".txt"@,
    )
}

impl SessionIo {
    pub fn new(id: String, artifact_dir: String) -> (io: Self)
        ensures
            io@.id == id@,
            io@.artifact_dir == artifact_dir@,
    {
        SessionIo { id, artifact_dir }
    }

    /// The layout of the Session in `record`.
    pub fn for_record(record: &SessionRecord) -> (io: Self)
        ensures
            io@.id == record@.id,
            io@.artifact_dir == record@.artifact_dir,
    {
        Self::new(record.id.clone(), record.artifact_dir.clone())
    }

    /// `artifact_dir/sessions/id`.
    pub fn runtime_dir(&self) -> (p: String)
        ensures
            p@ == runtime_dir_spec(self@),
    {
        let sessions = join(self.artifact_dir.as_str(), "sessions");
        join(sessions.as_str(), self.id.as_str())
    }

    /// The latest screen capture: `runtime_dir/screen.txt`.
    pub fn screen_path(&self) -> (p: String)
        ensures
            p@ == path_join(runtime_dir_spec(self@), "screen.txt"@),
    {
        join(self.runtime_dir().as_str(), "screen.txt")
    }

    /// The size a `resize` asks the supervisor for: `runtime_dir/desired-size.json`.
    pub fn desired_size_path(&self) -> (p: String)
        ensures
            p@ == path_join(runtime_dir_spec(self@), "desired-size.json"@),
    {
        join(self.runtime_dir().as_str(), "desired-size.json")
    }

    /// The socket that forwards `keys --pty` bytes: `runtime_dir/pty.sock`.
    pub fn pty_input_path(&self) -> (p: String)
        ensures
            p@ == path_join(runtime_dir_spec(self@), "pty.sock"@),
    {
        join(self.runtime_dir().as_str(), "pty.sock")
    }

    /// The file whose presence says the supervisor is ready: `runtime_dir/ready`.
    pub fn ready_file(&self) -> (p: String)
        ensures
            p@ == path_join(runtime_dir_spec(self@), "ready"@),
    {
        join(self.runtime_dir().as_str(), "ready")
    }

    /// The supervisor's log: `runtime_dir/supervisor.log`.
    pub fn supervisor_log(&self) -> (p: String)
        ensures
            p@ == path_join(runtime_dir_spec(self@), "supervisor.log"@),
    {
        join(self.runtime_dir().as_str(), "supervisor.log")
    }

    /// The Neovim control socket of Session `session_id`, in `temp_dir`.
    pub fn nvim_listen_path(temp_dir: &str, session_id: &str) -> (p: String)
        ensures
            p@ == listen_path_spec(temp_dir@, session_id@),
    {
        let mut name = "neowright-".to_string();
        push_str(&mut name, session_id);
        push_str(&mut name, ".sock");
        join(temp_dir, name.as_str())
    }

    /// Where a snapshot taken at `timestamp_ms` (milliseconds since the epoch) is
    /// written; the name carries the first 8 characters of the Session ID.
    pub fn snapshot_artifact_path(&self, timestamp_ms: u64) -> (p: String)
        requires
            self@.id.len() >= 8,
        ensures
            p@ == snapshot_path_spec(self@, timestamp_ms),
    {
        let dir = join(self.artifact_dir.as_str(), "snapshots");
        let mut name = "snapshot-".to_string();
        push_decimal(&mut name, timestamp_ms);
        name.push('-');
        let id = crate::text::chars_of(self.id.as_str());
        crate::text::push_chars(&mut name, &id, 0, 8);
        push_str(&mut name, ".txt");
        assert(name@ =~= "snapshot-"@ + decimal(timestamp_ms as nat) + seq!['-'] + self@.id.take(8)
            + ".txt"@);
        join(dir.as_str(), name.as_str())
    }
}

/// How long, in milliseconds, the screen file must have gone unchanged before a
/// snapshot reads it.
pub const SCREEN_SETTLE_AGE_MS: u64 = 100;

/// How long, in milliseconds, a snapshot waits at most for the screen to settle.
pub const SCREEN_SETTLE_TIMEOUT_MS: u64 = 1000;

/// What reading the latest screen does next.
#[derive(Debug, PartialEq, Eq, Structural)]
pub enum SettleStep {
    /// The screen file has not changed for long enough: read it and use that.
    ReadSettled,
    /// The wait is over: use the contents read last.
    UseLast,
    /// Wait a moment and read the file again.
    Retry,
}

/// The next step of waiting for the screen to settle, given how long ago the
/// screen file last changed and how long the snapshot has waited, in milliseconds.
pub fn settle_step(age_ms: u64, waited_ms: u64) -> (s: SettleStep)
    ensures
        age_ms >= SCREEN_SETTLE_AGE_MS ==> s == SettleStep::ReadSettled,
        age_ms < SCREEN_SETTLE_AGE_MS && waited_ms >= SCREEN_SETTLE_TIMEOUT_MS ==> s
            == SettleStep::UseLast,
        age_ms < SCREEN_SETTLE_AGE_MS && waited_ms < SCREEN_SETTLE_TIMEOUT_MS ==> s
            == SettleStep::Retry,
{
    if age_ms >= SCREEN_SETTLE_AGE_MS {
        SettleStep::ReadSettled
    } else if waited_ms >= SCREEN_SETTLE_TIMEOUT_MS {
        SettleStep::UseLast
    } else {
        SettleStep::Retry
    }
}

} // verus!
