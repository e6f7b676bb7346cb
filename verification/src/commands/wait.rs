//! `wait`: evaluate a Lua condition until it holds or the time runs out.

use vstd::prelude::*;

use crate::cli::WaitArgs;
use crate::commands::CommandOutput;
use crate::nvim::{display, truthy, NvimValue};
use crate::output::{result_with_lua, result_with_lua_text, timed_out_lua_condition, timed_out_text};

verus! {

/// What `wait` does after one evaluation of its condition.
#[derive(Debug, PartialEq, Eq)]
pub enum WaitStep {
    /// The condition held: print this.
    Done(CommandOutput),
    /// The time ran out: fail with this.
    TimedOut(String),
    /// Sleep for the interval and evaluate again.
    Retry,
}

/// One turn of `wait`: a truthy result ends it; otherwise it times out once
/// `timed_out` (the timeout has elapsed), or goes on.
pub fn run(args: &WaitArgs, last_result: &NvimValue, timed_out: bool) -> (s: WaitStep)
    ensures
        truthy(*last_result) ==> (s matches WaitStep::Done(CommandOutput::Markdown(m)) && m@
            == result_with_lua_text(display(*last_result), args.condition@)),
        !truthy(*last_result) && timed_out ==> (s matches WaitStep::TimedOut(m) && m@ == timed_out_text(
            display(*last_result),
            args.condition@,
        )),
        !truthy(*last_result) && !timed_out ==> s is Retry,
{
    if last_result.is_truthy() {
        let shown = last_result.format_display();
        return WaitStep::Done(
            CommandOutput::Markdown(result_with_lua(shown.as_str(), args.condition.as_str())),
        );
    }
    if timed_out {
        let shown = last_result.format_display();
        return WaitStep::TimedOut(timed_out_lua_condition(shown.as_str(), args.condition.as_str()));
    }
    WaitStep::Retry
}

} // verus!
