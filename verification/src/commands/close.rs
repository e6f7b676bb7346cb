//! `close`: which Sessions to close, and the report of closing them.

use vstd::prelude::*;

use crate::cli::CloseArgs;
use crate::commands::CommandOutput;
use crate::output::{close_report, close_report_text, failures_view, no_closed_sessions, no_closed_text};
use crate::record::{opt_view, records_view, SessionRecord, SessionRecordView};
use crate::session::{resolve_spec, SessionRegistry};

verus! {

/// The Sessions `close` acts on: every active one with `--all`, otherwise the
/// one the selector picks.
pub fn targets(registry: &SessionRegistry, args: &CloseArgs) -> (r: Result<Vec<SessionRecord>, String>)
    ensures
        args.all ==> (r matches Ok(v) && records_view(v@) == registry@.records),
        !args.all ==> match resolve_spec(
            registry@.records,
            opt_view(args.target.session),
            opt_view(args.target.name),
        ) {
            Ok(rec) => r matches Ok(v) && records_view(v@) == seq![rec],
            Err(m) => r matches Err(e) && e@ == m,
        },
{
    if args.all {
        return Ok(registry.active_sessions());
    }
    match registry.resolve_target(&args.target) {
        Ok(record) => {
            let v = vec![record];
            assert(records_view(v@) =~= seq![v@[0]@]);
            Ok(v)
        },
        Err(e) => Err(e),
    }
}

/// What `close` prints once each target was closed or failed: nothing closed
/// gives the empty report; any failure makes the whole report the error.
pub fn run(successes: &[SessionRecord], failures: &[(SessionRecord, String)]) -> (r: Result<CommandOutput, String>)
    ensures
        successes@.len() == 0 && failures@.len() == 0 ==> (r matches Ok(CommandOutput::Markdown(s))
            && s@ == no_closed_text()),
        successes@.len() + failures@.len() > 0 && failures@.len() == 0 ==> (r matches Ok(
            CommandOutput::Markdown(s),
        ) && s@ == close_report_text(records_view(successes@), failures_view(failures@))),
        failures@.len() > 0 ==> (r matches Err(s) && s@ == close_report_text(
            records_view(successes@),
            failures_view(failures@),
        )),
{
    if successes.len() == 0 && failures.len() == 0 {
        return Ok(CommandOutput::Markdown(no_closed_sessions()));
    }
    let report = close_report(successes, failures);
    if failures.len() > 0 {
        return Err(report);
    }
    Ok(CommandOutput::Markdown(report))
}

} // verus!
