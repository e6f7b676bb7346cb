//! The decisions of the supervisor process that owns a Session: how it answers
//! the terminal, when it resizes, when it stops, and how it reports a Session
//! that never became ready.

use vstd::prelude::*;

use crate::nvim::NvimValue;
use crate::record::SizeRecord;
use crate::text::{push_str, trim, trim_str};

verus! {

broadcast use vstd::string::group_string_axioms;

/// The terminal's "report status" query, `ESC [ 5 n`.
pub open spec fn status_request() -> Seq<u8> {
    seq![0x1bu8, 0x5bu8, 0x35u8, 0x6eu8]
}

/// The answer "terminal OK", `ESC [ 0 n`.
pub open spec fn status_ok() -> Seq<u8> {
    seq![0x1bu8, 0x5bu8, 0x30u8, 0x6eu8]
}

/// `bytes` holds the status query somewhere.
pub open spec fn holds_status_request(bytes: Seq<u8>) -> bool {
    exists|i: int| 0 <= i && i + 4 <= bytes.len() && #[trigger] bytes.subrange(i, i + 4) == status_request()
}

/// Whether a chunk of Neovim's output asks the terminal for its status.
pub fn requests_status_report(bytes: &[u8]) -> (b: bool)
    ensures
        b == holds_status_request(bytes@),
{
    let n = bytes.len();
    if n < 4 {
        assert forall|i: int| 0 <= i && i + 4 <= bytes@.len() implies #[trigger] bytes@.subrange(i, i + 4)
            != status_request() by {}
        return false;
    }
    let mut i: usize = 0;
    while i <= n - 4
        invariant
            n == bytes@.len(),
            n >= 4,
            i <= n - 3,
            forall|j: int| 0 <= j < i ==> #[trigger] bytes@.subrange(j, j + 4) != status_request(),
        decreases n - i,
    {
        if bytes[i] == 0x1b && bytes[i + 1] == 0x5b && bytes[i + 2] == 0x35 && bytes[i + 3] == 0x6e {
            assert(bytes@.subrange(i as int, i + 4) =~= status_request());
            return true;
        }
        assert(bytes@.subrange(i as int, i + 4)[0] == bytes@[i as int]);
        assert(bytes@.subrange(i as int, i + 4)[1] == bytes@[i + 1]);
        assert(bytes@.subrange(i as int, i + 4)[2] == bytes@[i + 2]);
        assert(bytes@.subrange(i as int, i + 4)[3] == bytes@[i + 3]);
        i += 1;
    }
    false
}

/// The reply the supervisor writes to the PTY for a status query.
pub fn status_report_reply() -> (r: Vec<u8>)
    ensures
        r@ == status_ok(),
{
    let r = vec![0x1bu8, 0x5bu8, 0x30u8, 0x6eu8];
    assert(r@ =~= status_ok());
    r
}

/// The requested size, when there is one and it differs from `current`.
pub open spec fn pending_resize_spec(desired: Option<SizeRecord>, current: SizeRecord) -> Option<SizeRecord> {
    match desired {
        Some(d) => if d == current {
            None
        } else {
            Some(d)
        },
        None => None,
    }
}

/// A requested size is applied exactly when it differs from the current size in
/// its columns or its rows, and then it is the requested size that is applied;
/// with no request nothing is.
pub proof fn lemma_pending_resize(desired: Option<SizeRecord>, current: SizeRecord)
    ensures
        desired is None ==> pending_resize_spec(desired, current) is None,
        desired matches Some(d) ==> ((pending_resize_spec(desired, current) is None) <==> (d.cols
            == current.cols && d.rows == current.rows)),
        desired matches Some(d) ==> ((d.cols != current.cols || d.rows != current.rows)
            ==> pending_resize_spec(desired, current) == Some(d)),
{
}

/// The size to resize the PTY and screen to, if a different one was requested.
pub fn pending_resize(desired: Option<SizeRecord>, current: SizeRecord) -> (r: Option<SizeRecord>)
    ensures
        r == pending_resize_spec(desired, current),
{
    match desired {
        Some(d) => if d.cols == current.cols && d.rows == current.rows {
            None
        } else {
            Some(d)
        },
        None => None,
    }
}

/// What the supervisor does on one turn of its watch loop.
#[derive(Debug, PartialEq, Eq, Structural)]
pub enum SupervisorStep {
    /// A shutdown signal arrived: kill Neovim and stop.
    KillChildAndStop,
    /// Neovim exited: stop.
    Stop,
    /// Keep watching: apply any requested size, then wait a moment.
    ApplyDesiredSize,
}

/// One turn of the watch loop: a shutdown signal wins over an exited child.
pub fn supervisor_step(shutdown_requested: bool, child_exited: bool) -> (s: SupervisorStep)
    ensures
        shutdown_requested ==> s == SupervisorStep::KillChildAndStop,
        !shutdown_requested && child_exited ==> s == SupervisorStep::Stop,
        !shutdown_requested && !child_exited ==> s == SupervisorStep::ApplyDesiredSize,
{
    if shutdown_requested {
        SupervisorStep::KillChildAndStop
    } else if child_exited {
        SupervisorStep::Stop
    } else {
        SupervisorStep::ApplyDesiredSize
    }
}

/// Whether a readiness probe (`return vim.v.vim_did_enter == 1`) says Neovim is up.
pub fn rpc_probe_ready(result: &NvimValue) -> (b: bool)
    ensures
        b == (*result == NvimValue::Bool(true)),
{
    match result {
        NvimValue::Bool(v) => *v,
        _ => false,
    }
}

pub open spec fn readiness_timeout_text(log: Seq<char>) -> Seq<char> {
    if trim(log).len() == 0 {
        "timed out waiting for Session readiness"@
    } else {
        "timed out waiting for Session readiness\n\nSupervisor log:\n```\n"@ + trim(log) + "\n```"@
    }
}

/// The error when a Session never became ready, with the supervisor's log if it
/// wrote anything.
pub fn readiness_timeout_error(log: &str) -> (m: String)
    ensures
        m@ == readiness_timeout_text(log@),
{
    let trimmed = trim_str(log);
    if trimmed.as_str().is_empty() {
        return "timed out waiting for Session readiness".to_string();
    }
    let mut m = "timed out waiting for Session readiness\n\nSupervisor log:\n```\n".to_string();
    push_str(&mut m, trimmed.as_str());
    push_str(&mut m, "\n```");
    m
}

pub open spec fn rpc_timeout_text(last_error: Seq<char>) -> Seq<char> {
    if last_error.len() == 0 {
        "timed out waiting for Neovim RPC readiness"@
    } else {
        "timed out waiting for Neovim RPC readiness: "@ + last_error
    }
}

/// The error when Neovim's RPC never answered the readiness probe, with the last
/// error seen.
pub fn rpc_timeout_error(last_error: &str) -> (m: String)
    ensures
        m@ == rpc_timeout_text(last_error@),
{
    if last_error.is_empty() {
        return "timed out waiting for Neovim RPC readiness".to_string();
    }
    let mut m = "timed out waiting for Neovim RPC readiness: ".to_string();
    push_str(&mut m, last_error);
    m
}

/// The error when Neovim's control socket never accepted a connection.
pub fn socket_timeout_error(listen: &str) -> (m: String)
    ensures
        m@ == "timed out waiting for Neovim control socket `"@ + listen@ + "`"@,
{
    let mut m = "timed out waiting for Neovim control socket `".to_string();
    push_str(&mut m, listen);
    push_str(&mut m, "`");
    m
}

} // verus!
