# neowright

A command-line tool that lets agents drive a real Neovim TUI session: open it in
a PTY, send keys, run Ex commands and Lua, wait for conditions, take text
snapshots of the screen, resize it and close it. Every command answers with
Agent-Readable Markdown.

## Layout

- `src/` is the library, verified with Verus. It holds what the tool decides:
  parsing of sizes and durations, the Session Registry's operations, the
  translation of `keys --pty` notation into terminal bytes, the snapshot grid,
  the Markdown documents, how Neovim RPC values are shown and which RPC message
  answers a request, the file layout of a Session, the supervisor's decisions,
  and what each command prints. Calls into `uuid`, `unicode-width`, `vt100` and
  `serde_json` stand behind small trusted functions whose contracts say what is
  assumed of them.
- `app/` is the executable around it: command-line parsing with `clap`, the
  registry file and its lock, the msgpack-RPC socket, the PTY supervisor
  process, and the loops that wait on Neovim.
- `tests/` exercises the library's public functions.
