//! `snapshot`: show the captured screen of a Session.

use vstd::prelude::*;

use crate::commands::CommandOutput;
use crate::output::{snapshot, snapshot_text_doc};
use crate::record::SessionRecord;

verus! {

/// What `snapshot` prints once the screen `contents` was written to `artifact`.
pub fn run(record: &SessionRecord, artifact: &str, contents: &str) -> (o: CommandOutput)
    ensures
        o matches CommandOutput::Markdown(s) && s@ == snapshot_text_doc(record@, artifact@, contents@),
{
    CommandOutput::Markdown(snapshot(record, artifact, contents))
}

} // verus!
