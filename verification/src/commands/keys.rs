//! `keys`: send keys to a Session, through Neovim RPC or straight to its PTY.

use vstd::prelude::*;

use crate::cli::KeysArgs;
use crate::commands::CommandOutput;
use crate::output::{sent_keys, sent_keys_text};
use crate::session_control::{pty_bytes, translate_pty_keys};

verus! {

/// How the keys reach Neovim.
#[derive(Debug, PartialEq, Eq)]
pub enum KeysDelivery {
    /// Neovim key notation, through `nvim_replace_termcodes` and `nvim_input`.
    Rpc(String),
    /// Terminal input bytes written to the Session PTY.
    Pty(Vec<u8>),
}

/// The delivery for `keys`: with `--pty` the translated bytes (or the error for
/// notation it refuses, before anything is sent), otherwise the keys as given.
pub fn delivery(args: &KeysArgs) -> (r: Result<KeysDelivery, String>)
    ensures
        !args.pty ==> (r matches Ok(KeysDelivery::Rpc(k)) && k@ == args.keys@),
        args.pty ==> match pty_bytes(args.keys@) {
            Ok(b) => r matches Ok(KeysDelivery::Pty(x)) && x@ == b,
            Err(m) => r matches Err(e) && e@ == m,
        },
{
    if args.pty {
        match translate_pty_keys(args.keys.as_str()) {
            Ok(bytes) => Ok(KeysDelivery::Pty(bytes)),
            Err(e) => Err(e),
        }
    } else {
        Ok(KeysDelivery::Rpc(args.keys.clone()))
    }
}

/// What `keys` prints once the keys were sent.
pub fn run(args: &KeysArgs) -> (o: CommandOutput)
    ensures
        o matches CommandOutput::Markdown(s) && s@ == sent_keys_text(
            if args.pty { "Sent PTY Keys"@ } else { "Sent Keys"@ },
            args.keys@,
        ),
{
    if args.pty {
        CommandOutput::Markdown(sent_keys("Sent PTY Keys", args.keys.as_str()))
    } else {
        CommandOutput::Markdown(sent_keys("Sent Keys", args.keys.as_str()))
    }
}

} // verus!
