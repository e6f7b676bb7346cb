//! What each command prints, decided from the results of its Session calls.
//!
//! Each command's talking to the registry, Neovim and the PTY happens outside;
//! the functions here take what those calls returned and produce the command's
//! output or error.

use vstd::prelude::*;

pub mod close;
pub mod eval;
pub mod exec;
pub mod keys;
pub mod list;
pub mod open;
pub mod resize;
pub mod skills;
pub mod snapshot;
pub mod target_session;
pub mod wait;

use crate::output::{error_document, error_document_text, status_document, status_document_text};

verus! {

/// What a command prints on success.
#[derive(Debug, PartialEq, Eq)]
pub enum CommandOutput {
    /// A message shown as a `### Status` document.
    Status(String),
    /// A finished Markdown document.
    Markdown(String),
    /// Text printed as it is.
    Raw(String),
}

/// A command's failure: the error, and what it still prints on stdout.
#[derive(Debug, PartialEq, Eq)]
pub struct CommandFailure {
    pub message: String,
    pub stdout: Option<String>,
}

impl CommandFailure {
    /// A failure with `message` and nothing on stdout.
    pub fn from_message(message: String) -> (f: Self)
        ensures
            f.message@ == message@,
            f.stdout is None,
    {
        CommandFailure { message, stdout: None }
    }
}

impl CommandOutput {
    /// A status message.
    pub fn from_status(value: String) -> (o: Self)
        ensures
            o matches CommandOutput::Status(s) && s@ == value@,
    {
        CommandOutput::Status(value)
    }
}

/// How a command that reports a status message finishes: the message as a
/// `Status`, an error as a failure with that message and no output.
pub fn status_result(r: Result<String, String>) -> (o: Result<CommandOutput, CommandFailure>)
    ensures
        r matches Ok(m) ==> (o matches Ok(CommandOutput::Status(x)) && x@ == m@),
        r matches Err(e) ==> (o matches Err(f) && f.message@ == e@ && f.stdout is None),
{
    match r {
        Ok(m) => Ok(CommandOutput::from_status(m)),
        Err(e) => Err(CommandFailure::from_message(e)),
    }
}

/// How a command that prints a document finishes: the document as it is, an
/// error as a failure with that message and no output.
pub fn output_result(r: Result<CommandOutput, String>) -> (o: Result<CommandOutput, CommandFailure>)
    ensures
        r matches Ok(out) ==> o == Ok::<CommandOutput, CommandFailure>(out),
        r matches Err(e) ==> (o matches Err(f) && f.message@ == e@ && f.stdout is None),
{
    match r {
        Ok(out) => Ok(out),
        Err(e) => Err(CommandFailure::from_message(e)),
    }
}

/// What the executable writes to stdout and stderr, and its exit status.
#[derive(Debug, PartialEq, Eq)]
pub struct Report {
    pub stdout: String,
    pub stderr: String,
    pub exit_code: i32,
}

/// How a finished command is reported: a status message as a `### Status`
/// document, Markdown and raw output as they are, all with status 0; a failure as
/// an `### Error` document on stderr, after any output it carries, with status 1.
pub fn report(result: Result<CommandOutput, CommandFailure>) -> (r: Report)
    ensures
        result matches Ok(CommandOutput::Status(m)) ==> r.stdout@ == status_document_text(m@)
            && r.stderr@.len() == 0 && r.exit_code == 0,
        result matches Ok(CommandOutput::Markdown(m)) ==> r.stdout@ == m@ && r.stderr@.len() == 0
            && r.exit_code == 0,
        result matches Ok(CommandOutput::Raw(m)) ==> r.stdout@ == m@ && r.stderr@.len() == 0
            && r.exit_code == 0,
        result matches Err(f) ==> r.stdout@ == (match f.stdout {
            Some(s) => s@,
            None => Seq::empty(),
        }) && r.stderr@ == error_document_text(f.message@) && r.exit_code == 1,
{
    match result {
        Ok(CommandOutput::Status(message)) => Report {
            stdout: status_document(message.as_str()),
            stderr: String::new(),
            exit_code: 0,
        },
        Ok(CommandOutput::Markdown(text)) => Report { stdout: text, stderr: String::new(), exit_code: 0 },
        Ok(CommandOutput::Raw(text)) => Report { stdout: text, stderr: String::new(), exit_code: 0 },
        Err(failure) => Report {
            stdout: match failure.stdout {
                Some(s) => s,
                None => String::new(),
            },
            stderr: error_document(failure.message.as_str()),
            exit_code: 1,
        },
    }
}

/// How a command line that does not parse is reported: an `### Error` document
/// on stderr, with status 2.
pub fn usage_error_report(message: &str) -> (r: Report)
    ensures
        r.stdout@.len() == 0,
        r.stderr@ == error_document_text(message@),
        r.exit_code == 2,
{
    Report { stdout: String::new(), stderr: error_document(message), exit_code: 2 }
}

} // verus!
