//! `exec`: run an Ex command in a Session.

use vstd::prelude::*;

use crate::cli::ExecArgs;
use crate::commands::CommandOutput;
use crate::output::{ran_command, ran_command_text};

verus! {

broadcast use vstd::string::group_string_axioms;

/// The command without one leading `:`.
pub open spec fn command_spec(command: Seq<char>) -> Seq<char> {
    if command.len() > 0 && command[0] == ':' {
        command.drop_first()
    } else {
        command
    }
}

/// `exec` accepts a command with or without its leading colon: both run the same
/// Ex command.
pub proof fn lemma_leading_colon_optional(command: Seq<char>)
    requires
        !(command.len() > 0 && command[0] == ':'),
    ensures
        command_spec(seq![':'] + command) == command_spec(command),
{
    assert((seq![':'] + command).drop_first() =~= command);
}

/// The Ex command to run: the argument without a leading colon.
pub fn command_text(args: &ExecArgs) -> (c: String)
    ensures
        c@ == command_spec(args.command@),
{
    let v = crate::text::chars_of(args.command.as_str());
    if v.len() > 0 && v[0] == ':' {
        let c = crate::text::string_from_chars(&v, 1, v.len());
        assert(v@.subrange(1, v@.len() as int) =~= v@.drop_first());
        c
    } else {
        args.command.clone()
    }
}

/// What `exec` prints once the command ran and printed `output`.
pub fn run(args: &ExecArgs, output: &str) -> (o: CommandOutput)
    ensures
        o matches CommandOutput::Markdown(s) && s@ == ran_command_text(output@, command_spec(args.command@)),
{
    let command = command_text(args);
    CommandOutput::Markdown(ran_command(output, command.as_str()))
}

} // verus!
