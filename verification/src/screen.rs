//! Turning terminal text into a fixed `cols` x `rows` grid of plain text.
//!
//! A line keeps the longest prefix whose display width fits in `cols` cells and is
//! padded with spaces to exactly `cols` cells; the grid keeps the first `rows`
//! lines and is padded with blank lines to exactly `rows` lines.

use vstd::prelude::*;

use crate::session::SizeRecord;
use crate::session_supervisor::{
    holds_status_request, pending_resize, pending_resize_spec, requests_status_report, status_ok,
    status_report_reply,
};
use crate::text::{chars_of, find_char, first_index, lemma_first_index, push_chars, push_repeat, repeat};

verus! {

broadcast use vstd::string::group_string_axioms;

/// What `UnicodeWidthChar::width` returns for `c`.
pub uninterp spec fn unicode_width(c: char) -> Option<usize>;

/// Calls `UnicodeWidthChar::width` of the `unicode-width` crate. Its result is
/// named `unicode_width(c)`; the crate's lookup code gives directly that control
/// characters (below U+0020, and U+007F to U+009F) have no width, that the other
/// ASCII characters are one column wide, and that every character from U+00A0 on
/// has a width. The widths it reads from its tables for those are not stated.
#[verifier::external_body]
fn char_width(c: char) -> (w: Option<usize>)
    ensures
        w == unicode_width(c),
        (c as u32) < 0x20 ==> w is None,
        0x20 <= (c as u32) < 0x7f ==> w == Some(1usize),
        0x7f <= (c as u32) < 0xa0 ==> w is None,
        0xa0 <= (c as u32) ==> w is Some,
{
    unicode_width::UnicodeWidthChar::width(c)
}

/// The terminal cells that `c` takes: none for a control character (below
/// U+0020, and U+007F to U+009F), one for any other ASCII character, and from
/// U+00A0 on what `unicode-width` gives it.
pub open spec fn cell_width(c: char) -> nat {
    if (c as u32) < 0x20 || (0x7f <= (c as u32) && (c as u32) < 0xa0) {
        0
    } else if (c as u32) < 0x7f {
        1
    } else {
        match unicode_width(c) {
            Some(w) => w as nat,
            None => 0,
        }
    }
}

/// The terminal cells that `s` takes.
pub open spec fn display_width(s: Seq<char>) -> nat
    decreases s.len(),
{
    if s.len() == 0 {
        0
    } else {
        cell_width(s[0]) + display_width(s.drop_first())
    }
}

/// Where the kept prefix of `line` ends, and its width, scanning from index `i`
/// with `width` cells already used: a character is kept while it still fits.
pub open spec fn kept_end(line: Seq<char>, i: int, cols: nat, width: nat) -> (int, nat)
    decreases line.len() - i,
{
    if i < 0 || i >= line.len() {
        (i, width)
    } else if width + cell_width(line[i]) > cols {
        (i, width)
    } else {
        kept_end(line, i + 1, cols, width + cell_width(line[i]))
    }
}

/// `line` cut to fit `cols` cells and padded with spaces to `cols` cells.
pub open spec fn normalize_line_spec(line: Seq<char>, cols: nat) -> Seq<char> {
    let (end, width) = kept_end(line, 0, cols, 0);
    line.take(end) + repeat(' ', (cols - width) as nat)
}

/// The `rows` lines of the grid: the first `rows` of `lines` fitted to `cols`
/// cells, then blank lines of `cols` spaces.
pub open spec fn grid_lines(lines: Seq<Seq<char>>, rows: nat, cols: nat) -> Seq<Seq<char>> {
    Seq::new(
        rows,
        |i: int|
            if i < lines.len() {
                normalize_line_spec(lines[i], cols)
            } else {
                repeat(' ', cols)
            },
    )
}

/// `parts` joined with `\n`.
pub open spec fn join_lines(parts: Seq<Seq<char>>) -> Seq<char>
    decreases parts.len(),
{
    if parts.len() == 0 {
        Seq::empty()
    } else if parts.len() == 1 {
        parts[0]
    } else {
        join_lines(parts.drop_last()) + seq!['\n'] + parts.last()
    }
}

/// The lines of `s` as `str::lines` gives them: split at `\n`, a `\r` before the
/// `\n` dropped, and no final empty line after a trailing line ending.
pub open spec fn text_lines(s: Seq<char>) -> Seq<Seq<char>>
    decreases s.len(),
{
    if s.len() == 0 {
        Seq::empty()
    } else {
        match first_index(s, '\n') {
            None => seq![s],
            Some(i) => {
                proof {
                    lemma_first_index(s, '\n');
                }
                let line = if i > 0 && s[i - 1] == '\r' {
                    s.take(i - 1)
                } else {
                    s.take(i)
                };
                seq![line] + text_lines(s.skip(i + 1))
            },
        }
    }
}

/// The snapshot text of `lines` on a `size` grid.
pub open spec fn normalized_text(lines: Seq<Seq<char>>, size: SizeRecord) -> Seq<char> {
    join_lines(grid_lines(lines, size.rows as nat, size.cols as nat))
}

proof fn lemma_kept_end(line: Seq<char>, i: int, cols: nat, width: nat)
    requires
        0 <= i <= line.len(),
        width <= cols,
    ensures
        i <= kept_end(line, i, cols, width).0 <= line.len(),
        kept_end(line, i, cols, width).1 <= cols,
        kept_end(line, i, cols, width).1 == width + display_width(
            line.subrange(i, kept_end(line, i, cols, width).0),
        ),
    decreases line.len() - i,
{
    let (e, w) = kept_end(line, i, cols, width);
    if i < line.len() && width + cell_width(line[i]) <= cols {
        lemma_kept_end(line, i + 1, cols, width + cell_width(line[i]));
        assert(line.subrange(i, e).drop_first() =~= line.subrange(i + 1, e));
    } else {
        assert(line.subrange(i, e) =~= Seq::<char>::empty());
    }
}

proof fn lemma_display_width_concat(a: Seq<char>, b: Seq<char>)
    ensures
        display_width(a + b) == display_width(a) + display_width(b),
    decreases a.len(),
{
    if a.len() > 0 {
        assert((a + b).drop_first() =~= a.drop_first() + b);
        lemma_display_width_concat(a.drop_first(), b);
    } else {
        assert(a + b =~= b);
    }
}

proof fn lemma_spaces_width(n: nat)
    ensures
        display_width(repeat(' ', n)) == n,
    decreases n,
{
    if n > 0 {
        assert(repeat(' ', n).drop_first() =~= repeat(' ', (n - 1) as nat));
        assert(repeat(' ', n)[0] == ' ');
        lemma_spaces_width((n - 1) as nat);
    }
}

/// A fitted line is a prefix of the line whose cells, together with
/// the padding spaces after it, number exactly `cols`; the prefix stops only at the
/// end of the line or before a character that would overflow the row.
pub proof fn lemma_line_fills_columns(line: Seq<char>, cols: nat)
    ensures
        ({
            let (end, width) = kept_end(line, 0, cols, 0);
            &&& 0 <= end <= line.len()
            &&& normalize_line_spec(line, cols) == line.take(end) + repeat(' ', (cols - width) as nat)
            &&& display_width(line.take(end)) == width
            &&& width + (cols - width) == cols
            &&& (end < line.len() ==> width + cell_width(line[end]) > cols)
        }),
{
    lemma_kept_end_stop(line, 0, cols, 0);
    lemma_kept_end(line, 0, cols, 0);
    let (e, w) = kept_end(line, 0, cols, 0);
    assert(line.subrange(0, e) =~= line.take(e));
}

proof fn lemma_kept_end_stop(line: Seq<char>, i: int, cols: nat, width: nat)
    requires
        0 <= i <= line.len(),
    ensures
        ({
            let (e, w) = kept_end(line, i, cols, width);
            e < line.len() ==> w + cell_width(line[e]) > cols
        }),
    decreases line.len() - i,
{
    if i < line.len() && width + cell_width(line[i]) <= cols {
        lemma_kept_end_stop(line, i + 1, cols, width + cell_width(line[i]));
    }
}

/// Every fitted line is exactly `cols` cells wide.
pub proof fn lemma_line_width_exact(line: Seq<char>, cols: nat)
    ensures
        display_width(normalize_line_spec(line, cols)) == cols,
{
    lemma_kept_end(line, 0, cols, 0);
    let (e, w) = kept_end(line, 0, cols, 0);
    assert(line.subrange(0, e) =~= line.take(e));
    lemma_display_width_concat(line.take(e), repeat(' ', (cols - w) as nat));
    lemma_spaces_width((cols - w) as nat);
}

/// The grid has exactly `rows` lines: the fitted first lines, then blank lines
/// of `cols` spaces.
pub proof fn lemma_grid_shape(lines: Seq<Seq<char>>, rows: nat, cols: nat)
    ensures
        grid_lines(lines, rows, cols).len() == rows,
        forall|i: int|
            0 <= i < rows ==> #[trigger] grid_lines(lines, rows, cols)[i] == if i < lines.len() {
                normalize_line_spec(lines[i], cols)
            } else {
                repeat(' ', cols)
            },
{
}

/// Fits `line` to exactly `cols` cells.
pub fn normalize_line(line: &str, cols: usize) -> (s: String)
    ensures
        s@ == normalize_line_spec(line@, cols as nat),
{
    let v = chars_of(line);
    let ghost l = v@;
    let mut i: usize = 0;
    let mut width: usize = 0;
    let mut done = false;
    while i < v.len() && !done
        invariant
            l == v@,
            l == line@,
            i <= v.len(),
            width <= cols,
            kept_end(l, 0, cols as nat, 0) == kept_end(l, i as int, cols as nat, width as nat),
            done ==> kept_end(l, i as int, cols as nat, width as nat) == (i as int, width as nat),
        decreases v.len() - i + (if done { 0int } else { 1int }),
    {
        let w = match char_width(v[i]) {
            Some(w) => w,
            None => 0,
        };
        assert(w == cell_width(l[i as int]));
        if w > cols - width {
            done = true;
        } else {
            width = width + w;
            i += 1;
        }
    }
    let mut s = String::new();
    push_chars(&mut s, &v, 0, i);
    push_repeat(&mut s, ' ', cols - width);
    assert(v@.subrange(0, i as int) =~= l.take(i as int));
    s
}

/// `l` holds no line break: no `\n` and no `\r`.
pub open spec fn plain_line(l: Seq<char>) -> bool {
    forall|k: int| 0 <= k < l.len() ==> l[k] != '\n' && l[k] != '\r'
}

proof fn lemma_kept_end_whole(l: Seq<char>, i: int, cols: nat, width: nat)
    requires
        0 <= i <= l.len(),
        width + display_width(l.skip(i)) <= cols,
    ensures
        kept_end(l, i, cols, width) == (l.len() as int, width + display_width(l.skip(i))),
    decreases l.len() - i,
{
    if i < l.len() {
        assert(l.skip(i).drop_first() =~= l.skip(i + 1));
        assert(l.skip(i)[0] == l[i]);
        lemma_kept_end_whole(l, i + 1, cols, width + cell_width(l[i]));
    } else {
        assert(l.skip(i) =~= Seq::<char>::empty());
    }
}

/// A line exactly `cols` cells wide is already fitted.
proof fn lemma_fitted_line_fixed(l: Seq<char>, cols: nat)
    requires
        display_width(l) == cols,
    ensures
        normalize_line_spec(l, cols) == l,
{
    assert(l.skip(0) =~= l);
    lemma_kept_end_whole(l, 0, cols, 0);
    assert(l.take(l.len() as int) =~= l);
    assert(repeat(' ', 0) =~= Seq::<char>::empty());
    assert(l + Seq::<char>::empty() =~= l);
}

proof fn lemma_join_front(p: Seq<char>, q: Seq<Seq<char>>)
    requires
        q.len() >= 1,
    ensures
        join_lines(seq![p] + q) == p + seq!['\n'] + join_lines(q),
    decreases q.len(),
{
    let t = seq![p] + q;
    assert(t.len() >= 2 && t.last() == q.last());
    assert(join_lines(t) == join_lines(t.drop_last()) + seq!['\n'] + t.last());
    if q.len() == 1 {
        assert(t.drop_last() =~= seq![p]);
        assert(join_lines(seq![p]) == p);
        assert(join_lines(q) == q[0]);
    } else {
        assert(join_lines(q) == join_lines(q.drop_last()) + seq!['\n'] + q.last());
        assert(t.drop_last() =~= seq![p] + q.drop_last());
        lemma_join_front(p, q.drop_last());
        assert(p + seq!['\n'] + join_lines(q.drop_last()) + seq!['\n'] + q.last() =~= p + seq!['\n']
            + (join_lines(q.drop_last()) + seq!['\n'] + q.last()));
    }
}

/// Lines without line breaks, joined and split again, come back; an empty last
/// line does not (there is no line after a final line ending).
proof fn lemma_text_lines_of_join(parts: Seq<Seq<char>>)
    requires
        forall|i: int| 0 <= i < parts.len() ==> plain_line(#[trigger] parts[i]),
    ensures
        parts.len() > 0 && parts.last().len() == 0 ==> text_lines(join_lines(parts)) == parts.drop_last(),
        !(parts.len() > 0 && parts.last().len() == 0) ==> text_lines(join_lines(parts)) == parts,
    decreases parts.len(),
{
    if parts.len() == 0 {
    } else if parts.len() == 1 {
        let p = parts[0];
        assert(plain_line(p));
        if p.len() > 0 {
            crate::text::lemma_first_index_none(p, '\n');
        }
        assert(parts.drop_last() =~= Seq::<Seq<char>>::empty());
        assert(seq![p] =~= parts);
    } else {
        let p = parts[0];
        let q = parts.drop_first();
        assert(parts =~= seq![p] + q);
        assert(plain_line(p));
        assert forall|i: int| 0 <= i < q.len() implies plain_line(#[trigger] q[i]) by {
            assert(q[i] == parts[i + 1]);
        }
        lemma_join_front(p, q);
        let s = p + seq!['\n'] + join_lines(q);
        assert(s[p.len() as int] == '\n');
        assert forall|j: int| 0 <= j < p.len() implies s[j] != '\n' by {
            assert(s[j] == p[j]);
        }
        crate::text::lemma_first_index_at(s, '\n', p.len() as int);
        if p.len() > 0 {
            assert(s[p.len() - 1] == p[p.len() - 1]);
        }
        assert(s.take(p.len() as int) =~= p);
        assert(s.skip(p.len() as int + 1) =~= join_lines(q));
        assert(text_lines(s) == seq![p] + text_lines(join_lines(q)));
        lemma_text_lines_of_join(q);
        assert(q.last() == parts.last());
        if parts.last().len() == 0 {
            assert(seq![p] + q.drop_last() =~= parts.drop_last());
        }
    }
}

/// Every line of `text_lines(s)` is free of `\n`, and of `\r` when `s` is.
proof fn lemma_text_lines_plain(s: Seq<char>)
    requires
        forall|k: int| 0 <= k < s.len() ==> s[k] != '\r',
    ensures
        forall|j: int| 0 <= j < text_lines(s).len() ==> plain_line(#[trigger] text_lines(s)[j]),
    decreases s.len(),
{
    if s.len() > 0 {
        lemma_first_index(s, '\n');
        match first_index(s, '\n') {
            None => {},
            Some(i) => {
                let rest = s.skip(i + 1);
                assert forall|k: int| 0 <= k < rest.len() implies rest[k] != '\r' by {
                    assert(rest[k] == s[k + i + 1]);
                }
                lemma_text_lines_plain(rest);
                let line = if i > 0 && s[i - 1] == '\r' {
                    s.take(i - 1)
                } else {
                    s.take(i)
                };
                assert(text_lines(s) == seq![line] + text_lines(rest));
                assert forall|j: int| 0 <= j < text_lines(s).len() implies plain_line(
                    #[trigger] text_lines(s)[j],
                ) by {
                    if j == 0 {
                        assert forall|k: int| 0 <= k < line.len() implies line[k] != '\n' && line[k]
                            != '\r' by {
                            assert(line[k] == s[k]);
                        }
                    } else {
                        assert(text_lines(s)[j] == text_lines(rest)[j - 1]);
                    }
                }
            },
        }
    }
}

/// Laying a snapshot's text out again gives the same text: it already is a
/// `rows` x `cols` grid. (Text with a `\r` is left out: a kept line that ends in
/// `\r` would be read back without it.)
pub proof fn lemma_normalize_text_idempotent(s: Seq<char>, size: SizeRecord)
    requires
        forall|k: int| 0 <= k < s.len() ==> s[k] != '\r',
    ensures
        normalized_text(text_lines(normalized_text(text_lines(s), size)), size) == normalized_text(
            text_lines(s),
            size,
        ),
{
    let rows = size.rows as nat;
    let cols = size.cols as nat;
    let lines = text_lines(s);
    let g = grid_lines(lines, rows, cols);
    lemma_text_lines_plain(s);
    lemma_grid_shape(lines, rows, cols);
    assert forall|i: int| 0 <= i < g.len() implies plain_line(#[trigger] g[i]) && display_width(g[i])
        == cols by {
        if i < lines.len() {
            let l = lines[i];
            assert(plain_line(l));
            lemma_line_fills_columns(l, cols);
            lemma_line_width_exact(l, cols);
            let (end, width) = kept_end(l, 0, cols, 0);
            assert forall|k: int| 0 <= k < g[i].len() implies g[i][k] != '\n' && g[i][k] != '\r' by {
                if k < end {
                    assert(g[i][k] == l[k]);
                } else {
                    assert(g[i][k] == ' ');
                }
            }
        } else {
            lemma_spaces_width(cols);
        }
    }
    lemma_text_lines_of_join(g);
    let t = text_lines(join_lines(g));
    let g2 = grid_lines(t, rows, cols);
    assert forall|i: int| 0 <= i < rows implies #[trigger] g2[i] == g[i] by {
        if i < t.len() {
            assert(t[i] == g[i]);
            lemma_fitted_line_fixed(g[i], cols);
        } else {
            assert(g[i].len() == 0);
            assert(display_width(g[i]) == 0);
            assert(repeat(' ', 0) =~= g[i]);
        }
    }
    assert(g2 =~= g);
}

/// Lays out `lines` on a `size` grid: exactly `size.rows` lines joined with `\n`,
/// each exactly `size.cols` cells wide.
pub fn normalize_lines(lines: &Vec<String>, size: SizeRecord) -> (s: String)
    ensures
        s@ == normalized_text(lines@.map_values(|l: String| l@), size),
{
    let ghost views = lines@.map_values(|l: String| l@);
    let ghost grid = grid_lines(views, size.rows as nat, size.cols as nat);
    let rows = size.rows as usize;
    let cols = size.cols as usize;
    let mut s = String::new();
    let mut i: usize = 0;
    while i < rows
        invariant
            i <= rows == size.rows,
            cols == size.cols,
            views == lines@.map_values(|l: String| l@),
            grid == grid_lines(views, size.rows as nat, size.cols as nat),
            s@ == join_lines(grid.take(i as int)),
        decreases rows - i,
    {
        let ghost before = s@;
        if i > 0 {
            s.push('\n');
        }
        if i < lines.len() {
            let line = normalize_line(lines[i].as_str(), cols);
            crate::text::push_str(&mut s, line.as_str());
        } else {
            push_repeat(&mut s, ' ', cols);
        }
        proof {
            let t = grid.take(i + 1);
            assert(t.drop_last() =~= grid.take(i as int));
            assert(t.last() == grid[i as int]);
            if i == 0 {
                assert(s@ =~= join_lines(t));
            } else {
                assert(s@ =~= join_lines(t));
            }
        }
        i += 1;
    }
    assert(grid.take(rows as int) =~= grid);
    s
}

/// The lines of `contents`, as `str::lines` splits them.
pub fn text_lines_of(contents: &str) -> (lines: Vec<String>)
    ensures
        lines@.map_values(|l: String| l@) == text_lines(contents@),
{
    let v = chars_of(contents);
    let ghost s = v@;
    let n = v.len();
    let mut lines: Vec<String> = Vec::new();
    let mut i: usize = 0;
    assert(s.skip(0) =~= s);
    while i < n
        invariant
            i <= n == v.len(),
            s == v@,
            s == contents@,
            text_lines(s) == lines@.map_values(|l: String| l@) + text_lines(s.skip(i as int)),
        decreases n - i,
    {
        let ghost rest = s.skip(i as int);
        assert(v@.subrange(i as int, n as int) =~= rest);
        let ghost before = lines@.map_values(|l: String| l@);
        match find_char(&v, i, n, '\n') {
            None => {
                lines.push(crate::text::string_from_chars(&v, i, n));
                assert(lines@.map_values(|l: String| l@) =~= before + seq![rest]);
                assert(s.skip(n as int) =~= Seq::<char>::empty());
                i = n;
            },
            Some(e) => {
                proof {
                    lemma_first_index(rest, '\n');
                }
                let end = if e > i && v[e - 1] == '\r' {
                    e - 1
                } else {
                    e
                };
                let ghost line = if e - i > 0 && rest[e - i - 1] == '\r' {
                    rest.take(e - i - 1)
                } else {
                    rest.take(e - i)
                };
                assert(v@.subrange(i as int, end as int) =~= line);
                lines.push(crate::text::string_from_chars(&v, i, end));
                assert(lines@.map_values(|l: String| l@) =~= before + seq![line]);
                assert(rest.skip(e - i + 1) =~= s.skip(e + 1));
                assert(text_lines(rest) == seq![line] + text_lines(s.skip(e + 1)));
                assert(before + (seq![line] + text_lines(s.skip(e + 1))) =~= (before + seq![line])
                    + text_lines(s.skip(e + 1)));
                i = e + 1;
            },
        }
    }
    assert(text_lines(s.skip(n as int)) =~= Seq::<Seq<char>>::empty()) by {
        assert(s.skip(n as int) =~= Seq::<char>::empty());
    }
    assert(lines@.map_values(|l: String| l@) + Seq::<Seq<char>>::empty() =~= lines@.map_values(
        |l: String| l@,
    ));
    lines
}

/// Lays out the text `contents` on a `size` grid.
pub fn normalize_text(contents: &str, size: SizeRecord) -> (s: String)
    ensures
        s@ == normalized_text(text_lines(contents@), size),
{
    let lines = text_lines_of(contents);
    normalize_lines(&lines, size)
}

/// A `vt100` terminal emulator holding the Session's screen. It is reached only
/// through the private methods below, each of which makes one call into `vt100`;
/// what they give is stated over `terminal_size` and `visible_rows`.
#[verifier::external_body]
pub struct TerminalParser {
    inner: vt100::Parser,
}

/// The size of the screen that `parser` holds, as `vt100::Screen::size` reports
/// it. It is what `parser_for` or the last resize set: only
/// `vt100::Screen::set_size` changes it, and `vt100::Parser::process` with the
/// default (no-op) callbacks leaves it as it is.
pub uninterp spec fn terminal_size(parser: TerminalParser) -> SizeRecord;

/// The visible rows of the screen that `parser` holds, each `cols` columns wide
/// from column 0, as `vt100::Screen::rows` gives them. They depend on every byte
/// the parser has processed.
pub uninterp spec fn visible_rows(parser: TerminalParser, cols: u16) -> Seq<Seq<char>>;

/// The visible rows, `cols` columns wide, of the screen that `parser` shows once
/// `vt100::Parser::process` has fed it `bytes`.
pub uninterp spec fn rows_after(parser: TerminalParser, bytes: Seq<u8>, cols: u16) -> Seq<Seq<char>>;

/// What one chunk of terminal output did to the screen.
#[derive(Debug, PartialEq, Eq)]
pub struct ScreenUpdate {
    /// The answer to write back to the terminal, when the chunk asked for the
    /// terminal's status.
    pub reply: Option<Vec<u8>>,
    /// The screen's size after the chunk.
    pub size: SizeRecord,
    /// The visible screen after the chunk, as snapshot text on `size`.
    pub screen: String,
}

impl TerminalParser {
    /// Calls `vt100::Parser::process`, which feeds terminal output bytes to the
    /// emulator. The screen's size stays as it was (a resize request in the output
    /// goes to the parser's callbacks, which do nothing), and the visible rows
    /// afterwards are `rows_after(old parser, bytes, cols)`: `process` is
    /// deterministic in the parser's state and the bytes.
    #[verifier::external_body]
    fn feed(&mut self, bytes: &[u8])
        ensures
            terminal_size(*final(self)) == terminal_size(*old(self)),
            forall|cols: u16| #[trigger] visible_rows(*final(self), cols) == rows_after(*old(self), bytes@, cols),
    {
        self.inner.process(bytes)
    }

    /// Calls `vt100::Screen::set_size` on the parser's screen, which gives both
    /// of its grids that size.
    #[verifier::external_body]
    fn set_screen_size(&mut self, size: SizeRecord)
        requires
            size.rows > 0,
            size.cols > 0,
        ensures
            terminal_size(*final(self)) == size,
    {
        self.inner.screen_mut().set_size(
            std::num::NonZeroU16::new(size.rows).unwrap(),
            std::num::NonZeroU16::new(size.cols).unwrap(),
        )
    }

    /// Calls `vt100::Screen::size` on the parser's screen, as (rows, cols); both
    /// are `NonZeroU16`.
    #[verifier::external_body]
    fn screen_size(&self) -> (r: SizeRecord)
        ensures
            r == terminal_size(*self),
            r.rows > 0,
            r.cols > 0,
    {
        let (rows, cols) = self.inner.screen().size();
        SizeRecord { cols: cols.get(), rows: rows.get() }
    }

    /// Calls `vt100::Screen::rows` on the parser's screen, from column 0 and
    /// `cols` wide, and collects the rows: they are `visible_rows(self, cols)`.
    #[verifier::external_body]
    fn screen_rows(&self, cols: u16) -> (r: Vec<String>)
        ensures
            r@.map_values(|l: String| l@) == visible_rows(*self, cols),
    {
        self.inner.screen().rows(0, cols).collect()
    }

    /// Feeds a chunk of Neovim's output to the emulator. Answers the terminal
    /// status query when the chunk holds one, and gives the screen's size and its
    /// visible text on that size afterwards; the size does not change.
    pub fn process_output(&mut self, bytes: &[u8]) -> (u: ScreenUpdate)
        ensures
            holds_status_request(bytes@) ==> (u.reply matches Some(r) && r@ == status_ok()),
            !holds_status_request(bytes@) ==> u.reply is None,
            terminal_size(*final(self)) == terminal_size(*old(self)),
            u.size == terminal_size(*old(self)),
            u.size.rows > 0 && u.size.cols > 0,
            u.screen@ == normalized_text(visible_rows(*final(self), u.size.cols), u.size),
            u.screen@ == normalized_text(rows_after(*old(self), bytes@, u.size.cols), u.size),
    {
        let reply = if requests_status_report(bytes) {
            Some(status_report_reply())
        } else {
            None
        };
        self.feed(bytes);
        let size = self.screen_size();
        let screen = snapshot_text(self, size);
        ScreenUpdate { reply, size, screen }
    }

    /// The size to resize to: `desired`, when it differs from the screen's size.
    pub fn pending_size(&self, desired: Option<SizeRecord>) -> (r: Option<SizeRecord>)
        ensures
            r == pending_resize_spec(desired, terminal_size(*self)),
    {
        let current = self.screen_size();
        pending_resize(desired, current)
    }

    /// Resizes the screen to `size`.
    pub fn resize_screen(&mut self, size: SizeRecord)
        requires
            size.rows > 0,
            size.cols > 0,
        ensures
            terminal_size(*final(self)) == size,
    {
        self.set_screen_size(size)
    }
}

/// Calls `vt100::Parser::new` for a `size.rows` x `size.cols` screen without
/// scrollback; its screen has that size. Nothing is stated of its contents.
#[verifier::external_body]
pub fn parser_for(size: SizeRecord) -> (p: TerminalParser)
    requires
        size.rows > 0,
        size.cols > 0,
    ensures
        terminal_size(p) == size,
{
    TerminalParser {
        inner: vt100::Parser::new(
            std::num::NonZeroU16::new(size.rows).unwrap(),
            std::num::NonZeroU16::new(size.cols).unwrap(),
            0,
        ),
    }
}

/// The visible screen of `parser` as snapshot text on a `size` grid.
pub fn snapshot_text(parser: &TerminalParser, size: SizeRecord) -> (s: String)
    ensures
        s@ == normalized_text(visible_rows(*parser, size.cols), size),
{
    let rows = parser.screen_rows(size.cols);
    normalize_lines(&rows, size)
}

} // verus!
