//! `open`: report a newly opened Session.

use vstd::prelude::*;

use crate::output::{opened_session, opened_session_text};
use crate::record::SessionRecord;

verus! {

/// What `open` reports for the Session it opened.
pub fn run(record: &SessionRecord) -> (s: String)
    ensures
        s@ == opened_session_text(record@),
{
    opened_session(record)
}

} // verus!
