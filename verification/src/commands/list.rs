//! `list`: show the active Sessions.

use vstd::prelude::*;

use crate::output::{active_sessions, active_sessions_text};
use crate::record::{records_view, SessionRecord};

verus! {

/// What `list` prints for the active records.
pub fn run(records: &[SessionRecord]) -> (s: String)
    ensures
        s@ == active_sessions_text(records_view(records@)),
{
    active_sessions(records)
}

} // verus!
