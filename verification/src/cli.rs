//! The command surface: what each command takes, and the parsers of the
//! `COLSxROWS` size and `500ms` / `5s` duration arguments.

use std::time::Duration;

use vstd::prelude::*;

use crate::text::{
    decimal, first_index, lemma_decimal_digits, lemma_first_index, lemma_parse_decimal,
    parse_unsigned, push_decimal, chars_of, find_char, parse_unsigned_chars,
};

verus! {

broadcast use vstd::string::group_string_axioms;

/// A parsed command line.
#[derive(Debug)]
pub struct Cli {
    pub command: Command,
}

/// One subcommand with its arguments.
#[derive(Debug)]
pub enum Command {
    Open(OpenArgs),
    List,
    SessionSupervisor(SessionSupervisorArgs),
    Close(CloseArgs),
    Keys(KeysArgs),
    Exec(ExecArgs),
    Eval(EvalArgs),
    Wait(WaitArgs),
    Snapshot(SnapshotArgs),
    Resize(ResizeArgs),
    Skills(SkillsArgs),
}

/// Arguments of the hidden supervisor process that owns one Session.
#[derive(Debug)]
pub struct SessionSupervisorArgs {
    pub session: String,
    pub name: Option<String>,
    pub cwd: String,
    pub size: Size,
    pub artifact_dir: String,
    pub listen: String,
    pub ready_file: String,
    pub neovim_args: Vec<String>,
}

#[derive(Debug)]
pub struct OpenArgs {
    pub name: Option<String>,
    pub size: Option<Size>,
    pub neovim_args: Vec<String>,
}

#[derive(Debug)]
pub struct TargetArgs {
    pub target: TargetSelector,
}

#[derive(Debug)]
pub struct SnapshotArgs {
    pub target: TargetSelector,
}

#[derive(Debug)]
pub struct CloseArgs {
    pub target: TargetSelector,
    pub force: bool,
    pub all: bool,
}

#[derive(Debug)]
pub struct KeysArgs {
    pub target: TargetSelector,
    pub pty: bool,
    pub keys: String,
}

#[derive(Debug)]
pub struct ExecArgs {
    pub target: TargetSelector,
    pub command: String,
}

#[derive(Debug)]
pub struct EvalArgs {
    pub target: TargetSelector,
    pub raw: bool,
    pub lua: String,
}

#[derive(Debug)]
pub struct WaitArgs {
    pub target: TargetSelector,
    pub timeout: Duration,
    pub interval: Duration,
    pub condition: String,
}

#[derive(Debug)]
pub struct ResizeArgs {
    pub target: TargetSelector,
    pub size: Size,
}

#[derive(Debug)]
pub struct SkillsArgs {
    pub command: SkillsCommand,
}

#[derive(Debug)]
pub enum SkillsCommand {
    Install(SkillsInstallArgs),
}

#[derive(Debug)]
pub struct SkillsInstallArgs {
    pub global: bool,
    pub local: bool,
    pub force: bool,
}

/// Which Session a command is aimed at: by id, by name, or (neither) the only one.
#[derive(Debug)]
pub struct TargetSelector {
    pub session: Option<String>,
    pub name: Option<String>,
}

/// A terminal size in character cells.
#[derive(Debug, Clone, Copy, PartialEq, Eq, Structural)]
pub struct Size {
    pub cols: u16,
    pub rows: u16,
}

/// The size a Session gets when `open` is given none.
pub open spec fn default_size() -> Size {
    Size { cols: 240, rows: 70 }
}

impl Default for Size {
    fn default() -> (s: Self)
        ensures
            s == default_size(),
    {
        Size { cols: 240, rows: 70 }
    }
}

/// `COLSxROWS`, as a size is displayed.
pub open spec fn size_text(cols: u16, rows: u16) -> Seq<char> {
    decimal(cols as nat) + seq!['x'] + decimal(rows as nat)
}

impl Size {
    /// The size as `COLSxROWS`, for example `240x70`.
    pub fn to_string(&self) -> (s: String)
        ensures
            s@ == size_text(self.cols, self.rows),
    {
        let mut s = String::new();
        push_decimal(&mut s, self.cols as u64);
        s.push('x');
        push_decimal(&mut s, self.rows as u64);
        assert(s@ =~= size_text(self.cols, self.rows));
        s
    }
}

pub open spec fn size_format_error() -> Seq<char> {
    "size must use COLSxROWS, for example 240x70"@
}

pub open spec fn size_cols_error() -> Seq<char> {
    "size columns must be a positive integer"@
}

pub open spec fn size_rows_error() -> Seq<char> {
    "size rows must be a positive integer"@
}

pub open spec fn size_zero_error() -> Seq<char> {
    "size columns and rows must be greater than zero"@
}

/// What `parse_size` gives for the text `s`: the columns before the first `x`
/// and the rows after it, each a `u16` as `str::parse` reads one, neither zero.
pub open spec fn parse_size_spec(s: Seq<char>) -> Result<Size, Seq<char>> {
    match first_index(s, 'x') {
        None => Err(size_format_error()),
        Some(i) => match parse_unsigned(s.take(i), 65535) {
            None => Err(size_cols_error()),
            Some(cols) => match parse_unsigned(s.skip(i + 1), 65535) {
                None => Err(size_rows_error()),
                Some(rows) => if cols == 0 || rows == 0 {
                    Err(size_zero_error())
                } else {
                    Ok(Size { cols: cols as u16, rows: rows as u16 })
                },
            },
        },
    }
}

/// Whether an exec result equals a spec result whose error is text.
pub open spec fn result_matches<T>(r: Result<T, String>, s: Result<T, Seq<char>>) -> bool {
    match (r, s) {
        (Ok(a), Ok(b)) => a == b,
        (Err(e), Err(m)) => e@ == m,
        _ => false,
    }
}

/// Parses a terminal size written `COLSxROWS`.
pub fn parse_size(value: &str) -> (r: Result<Size, String>)
    ensures
        result_matches(r, parse_size_spec(value@)),
{
    let v = chars_of(value);
    let ghost s = v@;
    assert(s.subrange(0, s.len() as int) =~= s);
    let x = match find_char(&v, 0, v.len(), 'x') {
        None => return Err("size must use COLSxROWS, for example 240x70".to_string()),
        Some(x) => x,
    };
    proof {
        lemma_first_index(s, 'x');
    }
    assert(s.subrange(0, x as int) =~= s.take(x as int));
    assert(s.subrange(x + 1, s.len() as int) =~= s.skip(x + 1));
    let cols = match parse_unsigned_chars(&v, 0, x, 65535) {
        None => return Err("size columns must be a positive integer".to_string()),
        Some(c) => c,
    };
    let rows = match parse_unsigned_chars(&v, x + 1, v.len(), 65535) {
        None => return Err("size rows must be a positive integer".to_string()),
        Some(r) => r,
    };
    if cols == 0 || rows == 0 {
        return Err("size columns and rows must be greater than zero".to_string());
    }
    Ok(Size { cols: cols as u16, rows: rows as u16 })
}

/// Displaying a size and parsing the text gives the same size back.
pub proof fn lemma_size_round_trip(size: Size)
    requires
        size.cols > 0,
        size.rows > 0,
    ensures
        parse_size_spec(size_text(size.cols, size.rows)) == Ok::<Size, Seq<char>>(size),
{
    let c = decimal(size.cols as nat);
    let t = size_text(size.cols, size.rows);
    lemma_decimal_digits(size.cols as nat);
    lemma_parse_decimal(size.cols as nat, 65535);
    lemma_parse_decimal(size.rows as nat, 65535);
    lemma_first_index(t, 'x');
    assert(t[c.len() as int] == 'x');
    assert forall|j: int| 0 <= j < c.len() implies t[j] != 'x' by {
        assert(t[j] == c[j]);
        assert(crate::text::is_digit(c[j]));
    }
    crate::text::lemma_first_index_at(t, 'x', c.len() as int);
    assert(t.take(c.len() as int) =~= c);
    assert(t.skip(c.len() as int + 1) =~= decimal(size.rows as nat));
}

/// `Duration::from_millis` applied to `ms`.
pub uninterp spec fn millis_duration(ms: u64) -> Duration;

/// `Duration::from_secs` applied to `secs`.
pub uninterp spec fn secs_duration(secs: u64) -> Duration;

/// Calls `Duration::from_millis`; the result is that function of `ms`, and a
/// whole number of seconds in milliseconds is the same duration as those seconds.
#[verifier::external_body]
fn duration_from_millis(ms: u64) -> (d: Duration)
    ensures
        d == millis_duration(ms),
        ms % 1000 == 0 ==> d == secs_duration((ms / 1000) as u64),
{
    Duration::from_millis(ms)
}

/// Calls `Duration::from_secs`; the result is that function of `secs`, the same
/// duration as `secs * 1000` milliseconds where that fits in a `u64`.
#[verifier::external_body]
fn duration_from_secs(secs: u64) -> (d: Duration)
    ensures
        d == secs_duration(secs),
        secs <= u64::MAX / 1000 ==> d == millis_duration((secs * 1000) as u64),
{
    Duration::from_secs(secs)
}

pub open spec fn ends_with(s: Seq<char>, suffix: Seq<char>) -> bool {
    suffix.len() <= s.len() && s.skip(s.len() - suffix.len()) == suffix
}

pub open spec fn duration_millis_error() -> Seq<char> {
    "duration milliseconds must be a positive integer"@
}

pub open spec fn duration_seconds_error() -> Seq<char> {
    "duration seconds must be a positive integer"@
}

pub open spec fn duration_unit_error() -> Seq<char> {
    "duration must use ms or s, for example 500ms or 5s"@
}

/// What `parse_duration` gives for `s`: a `u64` count of milliseconds before a
/// final `ms`, or else of seconds before a final `s`.
pub open spec fn parse_duration_spec(s: Seq<char>) -> Result<Duration, Seq<char>> {
    if ends_with(s, seq!['m', 's']) {
        match parse_unsigned(s.take(s.len() - 2), u64::MAX as nat) {
            Some(ms) => Ok(millis_duration(ms as u64)),
            None => Err(duration_millis_error()),
        }
    } else if ends_with(s, seq!['s']) {
        match parse_unsigned(s.take(s.len() - 1), u64::MAX as nat) {
            Some(secs) => Ok(secs_duration(secs as u64)),
            None => Err(duration_seconds_error()),
        }
    } else {
        Err(duration_unit_error())
    }
}

impl std::str::FromStr for Size {
    type Err = String;

    /// `COLSxROWS`, as `parse_size` reads it.
    fn from_str(value: &str) -> (r: Result<Size, String>)
        ensures
            result_matches(r, parse_size_spec(value@)),
    {
        parse_size(value)
    }
}

/// Parses a duration written with a `ms` or `s` unit, such as `500ms` or `5s`.
pub fn parse_duration(value: &str) -> (r: Result<Duration, String>)
    ensures
        result_matches(r, parse_duration_spec(value@)),
{
    let v = chars_of(value);
    let ghost s = v@;
    let n = v.len();
    if n >= 2 && v[n - 2] == 'm' && v[n - 1] == 's' {
        assert(ends_with(s, seq!['m', 's'])) by {
            assert(s.skip(s.len() - 2) =~= seq!['m', 's']);
        }
        assert(s.subrange(0, n - 2) =~= s.take(s.len() - 2));
        return match parse_unsigned_chars(&v, 0, n - 2, u64::MAX) {
            Some(ms) => Ok(duration_from_millis(ms)),
            None => Err("duration milliseconds must be a positive integer".to_string()),
        };
    }
    assert(!ends_with(s, seq!['m', 's'])) by {
        if ends_with(s, seq!['m', 's']) {
            assert(s.skip(s.len() - 2)[0] == s[s.len() - 2]);
            assert(s.skip(s.len() - 2)[1] == s[s.len() - 1]);
        }
    }
    if n >= 1 && v[n - 1] == 's' {
        assert(ends_with(s, seq!['s'])) by {
            assert(s.skip(s.len() - 1) =~= seq!['s']);
        }
        assert(s.subrange(0, n - 1) =~= s.take(s.len() - 1));
        return match parse_unsigned_chars(&v, 0, n - 1, u64::MAX) {
            Some(secs) => Ok(duration_from_secs(secs)),
            None => Err("duration seconds must be a positive integer".to_string()),
        };
    }
    assert(!ends_with(s, seq!['s'])) by {
        if ends_with(s, seq!['s']) {
            assert(s.skip(s.len() - 1)[0] == s[s.len() - 1]);
        }
    }
    Err("duration must use ms or s, for example 500ms or 5s".to_string())
}

} // verus!
