//! `eval`: run Lua in a Session and show its result.

use vstd::prelude::*;

use crate::cli::EvalArgs;
use crate::commands::CommandOutput;
use crate::nvim::{display, raw, NvimValue};
use crate::output::{result_with_lua, result_with_lua_text};

verus! {

/// What `eval` prints for `result`: with `--raw` the raw result and a newline,
/// otherwise the displayed result followed by the Lua that produced it.
pub fn run(args: &EvalArgs, result: &NvimValue) -> (o: CommandOutput)
    ensures
        args.raw ==> (o matches CommandOutput::Raw(s) && s@ == raw(*result).push('\n')),
        !args.raw ==> (o matches CommandOutput::Markdown(s) && s@ == result_with_lua_text(
            display(*result),
            args.lua@,
        )),
{
    if args.raw {
        let mut s = result.format_raw();
        s.push('\n');
        return CommandOutput::Raw(s);
    }
    let shown = result.format_display();
    CommandOutput::Markdown(result_with_lua(shown.as_str(), args.lua.as_str()))
}

} // verus!
