//! `resize`: report a Session's new size.

use vstd::prelude::*;

use crate::commands::CommandOutput;
use crate::output::{resized_session, resized_text};
use crate::record::SessionRecord;

verus! {

/// What `resize` prints for the resized Session's record.
pub fn run(record: &SessionRecord) -> (o: CommandOutput)
    ensures
        o matches CommandOutput::Markdown(s) && s@ == resized_text(record@),
{
    CommandOutput::Markdown(resized_session(record))
}

} // verus!
