//! Turning `keys --pty` notation into the bytes a terminal user would type.
//!
//! Plain text passes through as UTF-8; `<Esc>`, `<CR>`, `<Tab>`, `<BS>`, `<lt>`,
//! `<C-x>` and `<M-x>` (and their aliases) become terminal input bytes; any other
//! `<...>` token is refused rather than guessed at, and a `<` with no closing `>`
//! is plain text.

use vstd::prelude::*;
use vstd::utf8::encode_utf8;

use crate::cli::Size;
use crate::record::{SessionRecord, SessionRecordView, SizeRecord};
use crate::nvim::NvimValue;
use crate::text::{
    chars_of, chars_equal, decimal, find_char, first_index, lemma_first_index, lemma_first_index_at, push_chars,
    push_decimal, push_str,
};

verus! {

broadcast use vstd::string::group_string_axioms;

/// `c` with ASCII upper-case letters mapped to lower case.
pub open spec fn ascii_lower(c: char) -> char {
    if 'A' <= c && c <= 'Z' {
        ((c as u32) + 32) as char
    } else {
        c
    }
}

pub open spec fn lower(s: Seq<char>) -> Seq<char> {
    s.map_values(|c: char| ascii_lower(c))
}

/// The byte that `<C-c>` sends for the (lower-cased) key character `c`.
pub open spec fn control_byte(c: char) -> Option<u8> {
    if 'a' <= c && c <= 'z' {
        Some((c as u32 - 96) as u8)
    } else if c == '[' {
        Some(0x1b)
    } else if c == '\\' {
        Some(0x1c)
    } else if c == ']' {
        Some(0x1d)
    } else if c == '^' {
        Some(0x1e)
    } else if c == '_' {
        Some(0x1f)
    } else if c == '?' {
        Some(0x7f)
    } else {
        None
    }
}

/// The error for a token that `--pty` does not translate.
pub open spec fn unsupported_message(token: Seq<char>) -> Seq<char> {
    "unsupported PTY key notation: "@ + token
        + "; --pty supports only plain text, <Esc>, <CR>, <Tab>, <BS>, <lt>, <C-x>, and <M-x> terminal-level notation"@
}

pub open spec fn starts_with(s: Seq<char>, prefix: Seq<char>) -> bool {
    prefix.len() <= s.len() && s.take(prefix.len() as int) == prefix
}

/// The bytes for one `<...>` token, or the error that refuses it.
pub open spec fn token_bytes(token: Seq<char>) -> Result<Seq<u8>, Seq<char>> {
    let name = token.subrange(1, token.len() - 1);
    let l = lower(name);
    if l == "esc"@ || l == "escape"@ {
        Ok(seq![0x1bu8])
    } else if l == "cr"@ || l == "enter"@ || l == "return"@ {
        Ok(seq![0x0du8])
    } else if l == "tab"@ {
        Ok(seq![0x09u8])
    } else if l == "bs"@ || l == "backspace"@ {
        Ok(seq![0x7fu8])
    } else if l == "lt"@ {
        Ok(seq![0x3cu8])
    } else if starts_with(l, "c-"@) {
        let key = l.skip(2);
        if key.len() == 1 && control_byte(key[0]) is Some {
            Ok(seq![control_byte(key[0])->0])
        } else {
            Err(unsupported_message(token))
        }
    } else if starts_with(l, "m-"@) || starts_with(l, "a-"@) {
        let key = name.skip(2);
        if key.len() == 0 || key.contains('<') || key.contains('>') {
            Err(unsupported_message(token))
        } else {
            Ok(seq![0x1bu8] + encode_utf8(key))
        }
    } else {
        Err(unsupported_message(token))
    }
}

/// `bytes` followed by the bytes of `r`, or the error of `r`.
pub open spec fn prepend(bytes: Seq<u8>, r: Result<Seq<u8>, Seq<char>>) -> Result<Seq<u8>, Seq<char>> {
    match r {
        Ok(b) => Ok(bytes + b),
        Err(m) => Err(m),
    }
}

/// The bytes that `keys --pty` writes for the notation `s`, or the error for
/// the first token it refuses.
pub open spec fn pty_bytes(s: Seq<char>) -> Result<Seq<u8>, Seq<char>>
    decreases s.len(),
{
    if s.len() == 0 {
        Ok(Seq::empty())
    } else if s[0] != '<' {
        prepend(encode_utf8(seq![s[0]]), pty_bytes(s.drop_first()))
    } else {
        match first_index(s, '>') {
            None => Ok(encode_utf8(s)),
            Some(e) => {
                proof {
                    lemma_first_index(s, '>');
                }
                match token_bytes(s.take(e + 1)) {
                    Err(m) => Err(m),
                    Ok(t) => prepend(t, pty_bytes(s.skip(e + 1))),
                }
            },
        }
    }
}

proof fn lemma_prepend_assoc(a: Seq<u8>, b: Seq<u8>, r: Result<Seq<u8>, Seq<char>>)
    ensures
        prepend(a, prepend(b, r)) == prepend(a + b, r),
{
    if let Ok(x) = r {
        assert(a + (b + x) =~= (a + b) + x);
    }
}

/// Appends `t` to `out`.
fn push_bytes(out: &mut Vec<u8>, t: &Vec<u8>)
    ensures
        final(out)@ == old(out)@ + t@,
{
    let mut k: usize = 0;
    while k < t.len()
        invariant
            k <= t@.len(),
            out@ == old(out)@ + t@.take(k as int),
        decreases t@.len() - k,
    {
        out.push(t[k]);
        k += 1;
        assert(out@ =~= old(out)@ + t@.take(k as int));
    }
    assert(t@.take(t@.len() as int) =~= t@);
}

/// Appends the UTF-8 encoding of `v[from..to]` to `out`.
fn push_utf8(out: &mut Vec<u8>, v: &Vec<char>, from: usize, to: usize)
    requires
        from <= to <= v.len(),
    ensures
        final(out)@ == old(out)@ + encode_utf8(v@.subrange(from as int, to as int)),
{
    let mut s = String::new();
    push_chars(&mut s, v, from, to);
    assert(s@ =~= v@.subrange(from as int, to as int));
    let b = s.as_str().as_bytes();
    let mut i: usize = 0;
    while i < b.len()
        invariant
            i <= b@.len(),
            b@ == encode_utf8(v@.subrange(from as int, to as int)),
            out@ == old(out)@ + b@.take(i as int),
        decreases b@.len() - i,
    {
        out.push(b[i]);
        i += 1;
        assert(out@ =~= old(out)@ + b@.take(i as int));
    }
    assert(b@.take(b@.len() as int) =~= b@);
}

fn ascii_lower_char(c: char) -> (r: char)
    ensures
        r == ascii_lower(c),
{
    if 'A' <= c && c <= 'Z' {
        let u = (c as u8) + 32;
        proof {
            assert((u as u32) == (c as u32) + 32);
        }
        u as char
    } else {
        c
    }
}

/// The error for `token`, which is `v[from..to]`.
fn unsupported_pty_token(v: &Vec<char>, from: usize, to: usize) -> (m: String)
    requires
        from <= to <= v.len(),
    ensures
        m@ == unsupported_message(v@.subrange(from as int, to as int)),
{
    let mut m = "unsupported PTY key notation: ".to_string();
    push_chars(&mut m, v, from, to);
    crate::text::push_str(
        &mut m,
        "; --pty supports only plain text, <Esc>, <CR>, <Tab>, <BS>, <lt>, <C-x>, and <M-x> terminal-level notation",
    );
    m
}

/// Translates the token `v[from..to]` (which starts with `<` and ends with `>`).
fn translate_pty_token(v: &Vec<char>, from: usize, to: usize) -> (r: Result<Vec<u8>, String>)
    requires
        from + 2 <= to <= v.len(),
    ensures
        match token_bytes(v@.subrange(from as int, to as int)) {
            Ok(b) => r matches Ok(x) && x@ == b,
            Err(m) => r matches Err(x) && x@ == m,
        },
{
    let ghost token = v@.subrange(from as int, to as int);
    let ghost name = token.subrange(1, token.len() - 1);
    let mut l: Vec<char> = Vec::new();
    let mut i = from + 1;
    while i < to - 1
        invariant
            from + 1 <= i <= to - 1,
            to <= v.len(),
            l@ == lower(v@.subrange(from + 1, i as int)),
        decreases to - 1 - i,
    {
        l.push(ascii_lower_char(v[i]));
        i += 1;
        assert(l@ =~= lower(v@.subrange(from + 1, i as int)));
    }
    assert(name =~= v@.subrange(from + 1, to - 1));
    let ghost lname = lower(name);
    assert(l@ == lname);
    proof {
        reveal_strlit("c-");
        reveal_strlit("m-");
        reveal_strlit("a-");
    }
    let n = l.len();
    if chars_equal(&l, 0, n, "esc") || chars_equal(&l, 0, n, "escape") {
        assert(l@.subrange(0, n as int) =~= l@);
        return Ok(vec![0x1bu8]);
    }
    assert(l@.subrange(0, n as int) =~= l@);
    if chars_equal(&l, 0, n, "cr") || chars_equal(&l, 0, n, "enter") || chars_equal(&l, 0, n, "return") {
        return Ok(vec![0x0du8]);
    }
    if chars_equal(&l, 0, n, "tab") {
        return Ok(vec![0x09u8]);
    }
    if chars_equal(&l, 0, n, "bs") || chars_equal(&l, 0, n, "backspace") {
        return Ok(vec![0x7fu8]);
    }
    if chars_equal(&l, 0, n, "lt") {
        return Ok(vec![0x3cu8]);
    }
    if n >= 2 && chars_equal(&l, 0, 2, "c-") {
        assert(starts_with(lname, "c-"@)) by {
            assert(l@.subrange(0, 2) =~= lname.take(2));
        }
        if n == 3 {
            let c = l[2];
            assert(lname.skip(2) =~= seq![c]);
            let b: Option<u8> = if 'a' <= c && c <= 'z' {
                Some((c as u8) - 96)
            } else if c == '[' {
                Some(0x1b)
            } else if c == '\\' {
                Some(0x1c)
            } else if c == ']' {
                Some(0x1d)
            } else if c == '^' {
                Some(0x1e)
            } else if c == '_' {
                Some(0x1f)
            } else if c == '?' {
                Some(0x7f)
            } else {
                None
            };
            assert(b == control_byte(c));
            match b {
                Some(byte) => return Ok(vec![byte]),
                None => return Err(unsupported_pty_token(v, from, to)),
            }
        }
        assert(lname.skip(2).len() != 1);
        return Err(unsupported_pty_token(v, from, to));
    }
    assert(!starts_with(lname, "c-"@)) by {
        if starts_with(lname, "c-"@) {
            assert(l@.subrange(0, 2) =~= lname.take(2));
        }
    }
    let meta = n >= 2 && (chars_equal(&l, 0, 2, "m-") || chars_equal(&l, 0, 2, "a-"));
    assert(meta == (starts_with(lname, "m-"@) || starts_with(lname, "a-"@))) by {
        if n >= 2 {
            assert(l@.subrange(0, 2) =~= lname.take(2));
        }
    }
    if meta {
        let key_from = from + 3;
        let key_to = to - 1;
        let ghost key = name.skip(2);
        assert(key =~= v@.subrange(key_from as int, key_to as int));
        if key_from == key_to {
            return Err(unsupported_pty_token(v, from, to));
        }
        let lt = find_char(v, key_from, key_to, '<');
        let gt = find_char(v, key_from, key_to, '>');
        proof {
            lemma_first_index(key, '<');
            lemma_first_index(key, '>');
        }
        if lt.is_some() || gt.is_some() {
            proof {
                if lt.is_some() {
                    let k = first_index(key, '<')->0;
                    assert(key[k] == '<');
                } else {
                    let k = first_index(key, '>')->0;
                    assert(key[k] == '>');
                }
            }
            return Err(unsupported_pty_token(v, from, to));
        }
        assert(!key.contains('<') && !key.contains('>'));
        let mut out: Vec<u8> = vec![0x1bu8];
        push_utf8(&mut out, v, key_from, key_to);
        assert(out@ =~= seq![0x1bu8] + encode_utf8(key));
        return Ok(out);
    }
    Err(unsupported_pty_token(v, from, to))
}

/// Translates `keys --pty` notation into the bytes to write to the Session PTY.
pub fn translate_pty_keys(keys: &str) -> (r: Result<Vec<u8>, String>)
    ensures
        match pty_bytes(keys@) {
            Ok(b) => r matches Ok(x) && x@ == b,
            Err(m) => r matches Err(x) && x@ == m,
        },
{
    let v = chars_of(keys);
    let ghost s = v@;
    let n = v.len();
    let mut out: Vec<u8> = Vec::new();
    let mut i: usize = 0;
    assert(s.skip(0) =~= s);
    while i < n
        invariant
            i <= n == v.len(),
            s == v@,
            s == keys@,
            pty_bytes(s) == prepend(out@, pty_bytes(s.skip(i as int))),
        decreases n - i,
    {
        let ghost rest = s.skip(i as int);
        if v[i] != '<' {
            assert(rest[0] == v@[i as int]);
            assert(rest.drop_first() =~= s.skip(i + 1));
            let ghost old_out = out@;
            push_utf8(&mut out, &v, i, i + 1);
            assert(v@.subrange(i as int, i + 1) =~= seq![rest[0]]);
            proof {
                lemma_prepend_assoc(old_out, encode_utf8(seq![rest[0]]), pty_bytes(s.skip(i + 1)));
            }
            i += 1;
        } else {
            assert(rest[0] == '<');
            assert(v@.subrange(i as int, n as int) =~= rest);
            match find_char(&v, i, n, '>') {
                None => {
                    assert(first_index(rest, '>') is None);
                    assert(pty_bytes(rest) == Ok::<Seq<u8>, Seq<char>>(encode_utf8(rest)));
                    push_utf8(&mut out, &v, i, n);
                    return Ok(out);
                },
                Some(e) => {
                    proof {
                        lemma_first_index(rest, '>');
                    }
                    assert(v@.subrange(i as int, e + 1) =~= rest.take(e - i + 1));
                    assert(rest.skip(e - i + 1) =~= s.skip(e + 1));
                    assert(first_index(rest, '>') == Some((e - i) as int));
                    match translate_pty_token(&v, i, e + 1) {
                        Err(m) => {
                            assert(token_bytes(rest.take(e - i + 1)) is Err);
                            assert(pty_bytes(rest) is Err);
                            return Err(m);
                        },
                        Ok(t) => {
                            let ghost old_out = out@;
                            push_bytes(&mut out, &t);
                            proof {
                                lemma_prepend_assoc(old_out, t@, pty_bytes(s.skip(e + 1)));
                            }
                            i = e + 1;
                        },
                    }
                },
            }
        }
    }
    Ok(out)
}

/// Text with no `<` passes through `keys --pty` as its UTF-8 bytes.
pub proof fn lemma_plain_text_passes_through(s: Seq<char>)
    requires
        !s.contains('<'),
    ensures
        pty_bytes(s) == Ok::<Seq<u8>, Seq<char>>(encode_utf8(s)),
    decreases s.len(),
{
    if s.len() > 0 {
        assert(s[0] != '<') by {
            if s[0] == '<' {
                assert(s.contains('<'));
            }
        }
        let rest = s.drop_first();
        assert(!rest.contains('<')) by {
            if rest.contains('<') {
                let k = choose|k: int| 0 <= k < rest.len() && rest[k] == '<';
                assert(s[k + 1] == '<');
            }
        }
        lemma_plain_text_passes_through(rest);
        assert(seq![s[0]].drop_first() =~= Seq::<char>::empty());
        assert(encode_utf8(Seq::<char>::empty()) =~= Seq::<u8>::empty());
        assert(encode_utf8(seq![s[0]]) =~= vstd::utf8::encode_scalar(s[0] as u32));
        assert(encode_utf8(seq![s[0]]) + encode_utf8(rest) =~= encode_utf8(s));
    } else {
        assert(encode_utf8(s) =~= Seq::<u8>::empty());
    }
}

/// A `<` with no `>` after it, and everything after it, pass through as text.
pub proof fn lemma_unclosed_angle_is_text(s: Seq<char>)
    requires
        s.len() > 0,
        s[0] == '<',
        !s.contains('>'),
    ensures
        pty_bytes(s) == Ok::<Seq<u8>, Seq<char>>(encode_utf8(s)),
{
    lemma_first_index(s, '>');
    if let Some(e) = first_index(s, '>') {
        assert(s.contains('>'));
    }
}

/// The Lua chunk that lists the names of buffers with unsaved changes.
pub open spec fn modified_buffers_chunk() -> Seq<char> {
    "\nlocal modified = {}\nfor _, buffer in ipairs(vim.api.nvim_list_bufs()) do\n  if vim.bo[buffer].modified then\n    table.insert(modified, vim.api.nvim_buf_get_name(buffer))\n  end\nend\nreturn modified\n"@
}

/// The Lua chunk that `close` evaluates to find buffers with unsaved changes:
/// it returns the list of their names.
pub fn modified_buffers_lua() -> (s: &'static str)
    ensures
        s@ == modified_buffers_chunk(),
{
    "\nlocal modified = {}\nfor _, buffer in ipairs(vim.api.nvim_list_bufs()) do\n  if vim.bo[buffer].modified then\n    table.insert(modified, vim.api.nvim_buf_get_name(buffer))\n  end\nend\nreturn modified\n"
}

pub open spec fn unsaved_changes_message(count: nat) -> Seq<char> {
    "Session has unsaved changes; use `--force` to discard them ("@ + decimal(count) + ")"@
}

/// How `close` quits Neovim: refused while buffers have unsaved changes (unless
/// forced), otherwise `qall`, or `qall!` when forced.
pub open spec fn close_command_spec(force: bool, modified: Option<NvimValue>) -> Result<Seq<char>, Seq<char>> {
    if !force && (modified matches Some(NvimValue::Array(b)) && b@.len() > 0) {
        Err(unsaved_changes_message(modified->0->Array_0@.len()))
    } else if force {
        Ok("qall!"@)
    } else {
        Ok("qall"@)
    }
}

/// Chooses the quit command for `close`, given (when not forced) the answer to
/// `modified_buffers_lua`.
pub fn close_command(force: bool, modified: Option<&NvimValue>) -> (r: Result<String, String>)
    ensures
        match close_command_spec(force, match modified { Some(m) => Some(*m), None => None }) {
            Ok(c) => r matches Ok(x) && x@ == c,
            Err(m) => r matches Err(x) && x@ == m,
        },
{
    if !force {
        if let Some(NvimValue::Array(buffers)) = modified {
            if buffers.len() > 0 {
                let mut m = "Session has unsaved changes; use `--force` to discard them (".to_string();
                push_decimal(&mut m, buffers.len() as u64);
                push_str(&mut m, ")");
                return Err(m);
            }
        }
    }
    if force {
        Ok("qall!".to_string())
    } else {
        Ok("qall".to_string())
    }
}

/// The Ex command that resizes Neovim's grid: `set columns=C lines=R`.
pub fn resize_command(size: Size) -> (c: String)
    ensures
        c@ == "set columns="@ + decimal(size.cols as nat) + " lines="@ + decimal(size.rows as nat),
{
    let mut c = "set columns=".to_string();
    push_decimal(&mut c, size.cols as u64);
    push_str(&mut c, " lines=");
    push_decimal(&mut c, size.rows as u64);
    c
}

/// The key characters that `<C-...>` accepts, besides `?`: the letters of either
/// case and `[ \\ ] ^ _`.
pub open spec fn control_key(k: char) -> bool {
    ||| ('a' <= k && k <= 'z')
    ||| ('A' <= k && k <= 'Z')
    ||| k == '['
    ||| k == '\\'
    ||| k == ']'
    ||| k == '^'
    ||| k == '_'
}

proof fn lemma_control_token(control: char, key: char)
    requires
        control == 'C' || control == 'c',
        key != '>',
    ensures
        pty_bytes(seq!['<', control, '-', key, '>']) == (match control_byte(ascii_lower(key)) {
            Some(b) => Ok::<Seq<u8>, Seq<char>>(seq![b]),
            None => Err(unsupported_message(seq!['<', control, '-', key, '>'])),
        }),
{
    reveal_strlit("esc");
    reveal_strlit("escape");
    reveal_strlit("cr");
    reveal_strlit("enter");
    reveal_strlit("return");
    reveal_strlit("tab");
    reveal_strlit("bs");
    reveal_strlit("backspace");
    reveal_strlit("lt");
    reveal_strlit("c-");
    let s = seq!['<', control, '-', key, '>'];
    lemma_first_index_at(s, '>', 4);
    let token = s.take(5);
    assert(token =~= s);
    let name = token.subrange(1, token.len() - 1);
    assert(name =~= seq![control, '-', key]);
    let l = lower(name);
    let low = ascii_lower(key);
    assert(l =~= seq!['c', '-', low]);
    assert(l != "esc"@ && l != "escape"@ && l != "cr"@ && l != "enter"@ && l != "return"@);
    assert(l != "tab"@ && l != "bs"@ && l != "backspace"@ && l != "lt"@);
    assert(starts_with(l, "c-"@)) by {
        assert(l.take(2) =~= "c-"@);
    }
    assert(l.skip(2) =~= seq![low]);
    assert(s.skip(5) =~= Seq::<char>::empty());
    assert(pty_bytes(Seq::<char>::empty()) == Ok::<Seq<u8>, Seq<char>>(Seq::empty()));
    assert(pty_bytes(s.skip(5int)) == Ok::<Seq<u8>, Seq<char>>(Seq::empty()));
    assert(s[0] == '<' && s.len() > 0);
    match control_byte(low) {
        Some(b) => {
            assert(token_bytes(token) == Ok::<Seq<u8>, Seq<char>>(seq![b]));
            assert(seq![b] + Seq::<u8>::empty() =~= seq![b]);
        },
        None => {},
    }
}

/// `<C-x>` (or `<c-x>`) sends one control byte: for a letter of either case or
/// one of `[ \\ ] ^ _`, the low five bits of the key (`a` and `A` are 1, `z` and
/// `Z` are 26, `[` is ESC); for `?`, DEL. Any other key is refused.
pub proof fn lemma_control_keys(control: char, key: char)
    requires
        control == 'C' || control == 'c',
        key != '>',
    ensures
        control_key(key) ==> pty_bytes(seq!['<', control, '-', key, '>']) == Ok::<Seq<u8>, Seq<char>>(
            seq![(key as u32 % 32) as u8],
        ),
        control_key(key) ==> 1 <= key as u32 % 32 <= 31,
        ('a' <= key && key <= 'z') || ('A' <= key && key <= 'Z') ==> 1 <= key as u32 % 32 <= 26,
        key == '?' ==> pty_bytes(seq!['<', control, '-', key, '>']) == Ok::<Seq<u8>, Seq<char>>(
            seq![0x7fu8],
        ),
        !control_key(key) && key != '?' ==> pty_bytes(seq!['<', control, '-', key, '>']) is Err,
{
    lemma_control_token(control, key);
    let low = ascii_lower(key);
    if 'A' <= key && key <= 'Z' {
        assert('a' <= low && low <= 'z');
        assert(low as u32 - 96 == key as u32 % 32);
    } else if 'a' <= key && key <= 'z' {
        assert(low as u32 - 96 == key as u32 % 32);
    }
}

/// What `resize` does, in this order: run `command` in Neovim, store `record`
/// (the Session's record with its new size) in the registry, then ask the
/// supervisor to resize its terminal to `desired`.
pub struct ResizePlan {
    pub command: String,
    pub record: SessionRecord,
    pub desired: SizeRecord,
}

/// The steps that resize the Session of `record` to `size`.
pub fn resize_plan(record: &SessionRecord, size: Size) -> (p: ResizePlan)
    ensures
        p.command@ == "set columns="@ + decimal(size.cols as nat) + " lines="@ + decimal(size.rows as nat),
        p.desired == (SizeRecord { cols: size.cols, rows: size.rows }),
        p.record@ == (SessionRecordView { size: p.desired, ..record@ }),
{
    let mut updated = record.duplicate();
    let desired = SizeRecord::from_size(size);
    updated.size = desired;
    ResizePlan { command: resize_command(size), record: updated, desired }
}

} // verus!
