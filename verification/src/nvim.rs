//! Values returned by Neovim over RPC, how they are shown to agents, and which
//! RPC message answers a request.

use vstd::prelude::*;

use crate::dict::keys_ascending;
use crate::text::{push_signed_decimal, push_str, signed_decimal};

verus! {

broadcast use vstd::string::group_string_axioms;

/// A floating-point result, kept as the two texts it is shown as: its Rust
/// display form, and its JSON form (`null` when it is not finite).
#[derive(Debug, Clone, PartialEq)]
pub struct FloatText {
    pub display: String,
    pub json: String,
}

/// A Neovim RPC value. In a well-formed value (`well_formed`), as
/// `dict_from_entries` builds maps, map entries are in ascending key order, one
/// per key.
#[derive(Debug, PartialEq)]
pub enum NvimValue {
    Nil,
    Bool(bool),
    Integer(i64),
    Float(FloatText),
    String(String),
    Array(Vec<NvimValue>),
    Dict(Vec<(String, NvimValue)>),
}

/// What `format!("{:?}", s)` gives for a string: Rust's quoted, escaped form.
pub uninterp spec fn debug_quoted(s: Seq<char>) -> Seq<char>;

/// Calls `format!("{:?}", s)`, Rust's `Debug` form of a string: the string in
/// double quotes with quotes, backslashes and unprintable characters escaped. The
/// result is named `debug_quoted(s)`; the escaping rules are std's and not restated.
#[verifier::external_body]
fn debug_string(s: &str) -> (r: String)
    ensures
        r@ == debug_quoted(s@),
{
    format!("{:?}", s)
}

/// The lowercase hexadecimal digit for `d < 16`.
pub open spec fn hex_digit(d: nat) -> char {
    if d < 10 {
        crate::text::digit_char(d)
    } else if d == 10 {
        'a'
    } else if d == 11 {
        'b'
    } else if d == 12 {
        'c'
    } else if d == 13 {
        'd'
    } else if d == 14 {
        'e'
    } else {
        'f'
    }
}

/// How a character is written inside a JSON string: `"` and `\` after a
/// backslash; backspace, form feed, newline, carriage return and tab as `\b`,
/// `\f`, `\n`, `\r` and `\t`; any other character below U+0020 as `\u00XX`
/// with lowercase hex digits; every other character as it is. This is how
/// `serde_json` escapes a string.
pub open spec fn json_escape_char(c: char) -> Seq<char> {
    if c == '"' {
        seq!['\\', '"']
    } else if c == '\\' {
        seq!['\\', '\\']
    } else if c == '\u{8}' {
        seq!['\\', 'b']
    } else if c == '\u{c}' {
        seq!['\\', 'f']
    } else if c == '\n' {
        seq!['\\', 'n']
    } else if c == '\r' {
        seq!['\\', 'r']
    } else if c == '\t' {
        seq!['\\', 't']
    } else if (c as u32) < 0x20 {
        seq!['\\', 'u', '0', '0', hex_digit((c as u32 / 16) as nat), hex_digit((c as u32 % 16) as nat)]
    } else {
        seq![c]
    }
}

/// The characters of `s`, each escaped for a JSON string.
pub open spec fn json_escape(s: Seq<char>) -> Seq<char>
    decreases s.len(),
{
    if s.len() == 0 {
        Seq::empty()
    } else {
        json_escape(s.drop_last()) + json_escape_char(s.last())
    }
}

/// The JSON string literal of `s`, as `serde_json::to_string` writes it. Writing
/// a string cannot fail, so this is never `None`; the option carries the
/// fallback to `null` that compact output keeps for a value that cannot be written.
pub open spec fn json_quoted(s: Seq<char>) -> Option<Seq<char>> {
    Some(seq!['"'] + json_escape(s) + seq!['"'])
}

/// Calls `serde_json::to_string` on a string: its JSON string literal, which
/// `serde_json` writes with the escapes that `json_escape_char` lists (its escape
/// table and `write_char_escape`). Writing a string into memory cannot fail, so
/// the result is always there.
#[verifier::external_body]
fn json_string(s: &str) -> (r: Option<String>)
    ensures
        match json_quoted(s@) {
            Some(t) => r matches Some(x) && x@ == t,
            None => r is None,
        },
{
    match serde_json::to_string(s) {
        Ok(t) => Some(t),
        Err(_) => None,
    }
}

pub open spec fn bool_text(b: bool) -> Seq<char> {
    if b {
        "true"@
    } else {
        "false"@
    }
}

/// The display form of a value nested inside an array or map: strings quoted.
pub open spec fn nested_display(v: NvimValue) -> Seq<char>
    decreases v, 1nat,
{
    match v {
        NvimValue::String(s) => debug_quoted(s@),
        _ => display(v),
    }
}

/// The display form of `items[0..n]`, joined with `, `.
pub open spec fn display_items(items: Seq<NvimValue>, n: nat) -> Seq<char>
    decreases items, n,
{
    if n == 0 || n > items.len() {
        Seq::empty()
    } else if n == 1 {
        nested_display(items[0])
    } else {
        display_items(items, (n - 1) as nat) + ", "@ + nested_display(items[n - 1])
    }
}

/// The display form of `entries[0..n]` as `key = value`, joined with `, `.
pub open spec fn display_entries(entries: Seq<(String, NvimValue)>, n: nat) -> Seq<char>
    decreases entries, n,
{
    if n == 0 || n > entries.len() {
        Seq::empty()
    } else {
        let e = entries[n - 1];
        let one = e.0@ + " = "@ + nested_display(e.1);
        if n == 1 {
            one
        } else {
            display_entries(entries, (n - 1) as nat) + ", "@ + one
        }
    }
}

/// How a value is shown to an agent: Lua-like, `nil`, `{ a, b }`, `{ k = v }`.
pub open spec fn display(v: NvimValue) -> Seq<char>
    decreases v, 0nat,
{
    match v {
        NvimValue::Nil => "nil"@,
        NvimValue::Bool(b) => bool_text(b),
        NvimValue::Integer(i) => signed_decimal(i as int),
        NvimValue::Float(f) => f.display@,
        NvimValue::String(s) => s@,
        NvimValue::Array(items) => "{ "@ + display_items(items@, items@.len()) + " }"@,
        NvimValue::Dict(entries) => "{ "@ + display_entries(entries@, entries@.len()) + " }"@,
    }
}

pub open spec fn opt_concat(a: Option<Seq<char>>, b: Option<Seq<char>>) -> Option<Seq<char>> {
    match (a, b) {
        (Some(x), Some(y)) => Some(x + y),
        _ => None,
    }
}

/// The compact JSON of `items[0..n]`, joined with `,`.
pub open spec fn json_items(items: Seq<NvimValue>, n: nat) -> Option<Seq<char>>
    decreases items, n,
{
    if n == 0 || n > items.len() {
        Some(Seq::empty())
    } else if n == 1 {
        json(items[0])
    } else {
        opt_concat(opt_concat(json_items(items, (n - 1) as nat), Some(seq![','])), json(items[n - 1]))
    }
}

/// The compact JSON of `entries[0..n]` as `"key":value`, joined with `,`.
pub open spec fn json_entries(entries: Seq<(String, NvimValue)>, n: nat) -> Option<Seq<char>>
    decreases entries, n,
{
    if n == 0 || n > entries.len() {
        Some(Seq::empty())
    } else {
        let e = entries[n - 1];
        let one = opt_concat(opt_concat(json_quoted(e.0@), Some(seq![':'])), json(e.1));
        if n == 1 {
            one
        } else {
            opt_concat(opt_concat(json_entries(entries, (n - 1) as nat), Some(seq![','])), one)
        }
    }
}

/// The compact JSON text of a value (`None` when a string could not be encoded).
pub open spec fn json(v: NvimValue) -> Option<Seq<char>>
    decreases v, 0nat,
{
    match v {
        NvimValue::Nil => Some("null"@),
        NvimValue::Bool(b) => Some(bool_text(b)),
        NvimValue::Integer(i) => Some(signed_decimal(i as int)),
        NvimValue::Float(f) => Some(f.json@),
        NvimValue::String(s) => json_quoted(s@),
        NvimValue::Array(items) => opt_concat(
            opt_concat(Some(seq!['[']), json_items(items@, items@.len())),
            Some(seq![']']),
        ),
        NvimValue::Dict(entries) => opt_concat(
            opt_concat(Some(seq!['{']), json_entries(entries@, entries@.len())),
            Some(seq!['}']),
        ),
    }
}

/// The compact JSON of a value, or `null` when it cannot be encoded.
pub open spec fn compact(v: NvimValue) -> Seq<char> {
    match json(v) {
        Some(t) => t,
        None => "null"@,
    }
}

/// The raw form of a value: a string as it is, anything else as compact JSON.
pub open spec fn raw(v: NvimValue) -> Seq<char> {
    match v {
        NvimValue::String(s) => s@,
        _ => compact(v),
    }
}

/// A value as Neovim's RPC gives it: the entries of every map, nested ones too,
/// have strictly ascending keys, so no key occurs twice.
pub open spec fn well_formed(v: NvimValue) -> bool
    decreases v, 0nat,
{
    match v {
        NvimValue::Array(items) => items_well_formed(items@, items@.len()),
        NvimValue::Dict(entries) => keys_ascending(entries@) && entries_well_formed(
            entries@,
            entries@.len(),
        ),
        _ => true,
    }
}

/// `items[0..n]` are well formed.
pub open spec fn items_well_formed(items: Seq<NvimValue>, n: nat) -> bool
    decreases items, n,
{
    if n == 0 || n > items.len() {
        true
    } else {
        items_well_formed(items, (n - 1) as nat) && well_formed(items[n - 1])
    }
}

/// The values of `entries[0..n]` are well formed.
pub open spec fn entries_well_formed(entries: Seq<(String, NvimValue)>, n: nat) -> bool
    decreases entries, n,
{
    if n == 0 || n > entries.len() {
        true
    } else {
        entries_well_formed(entries, (n - 1) as nat) && well_formed(entries[n - 1].1)
    }
}

/// Lua truthiness: everything but `nil` and `false`.
pub open spec fn truthy(v: NvimValue) -> bool {
    !(v is Nil || v == NvimValue::Bool(false))
}

/// Inside a table every value but a string is shown as it is shown on its own:
/// a nested table keeps the Lua-like `{ ... }` form.
pub proof fn lemma_nested_display_is_display(v: NvimValue)
    requires
        !(v is String),
    ensures
        nested_display(v) == display(v),
{
}

/// A one-element list shows its element as that element is shown on its own,
/// when it is not a string.
pub proof fn lemma_single_item_display(items: Vec<NvimValue>)
    requires
        items@.len() == 1,
        !(items@[0] is String),
    ensures
        display(NvimValue::Array(items)) == "{ "@ + display(items@[0]) + " }"@,
{
}

/// A one-entry map shows its entry as `key = value`, the value as it is shown on
/// its own when it is not a string.
pub proof fn lemma_single_entry_display(entries: Vec<(String, NvimValue)>)
    requires
        entries@.len() == 1,
        !(entries@[0].1 is String),
    ensures
        display(NvimValue::Dict(entries)) == "{ "@ + entries@[0].0@ + " = "@ + display(entries@[0].1)
            + " }"@,
{
}

/// Lua truthiness: only `nil` and `false` are false. Every number, string, list
/// and map is true, the empty ones too, and a boolean is itself.
pub proof fn lemma_truthiness(v: NvimValue)
    ensures
        v is Nil ==> !truthy(v),
        v is Bool ==> truthy(v) == v->Bool_0,
        (v is Integer || v is Float || v is String || v is Array || v is Dict) ==> truthy(v),
{
}

proof fn lemma_opt_concat_assoc(a: Option<Seq<char>>, b: Option<Seq<char>>, c: Option<Seq<char>>)
    ensures
        opt_concat(opt_concat(a, b), c) == opt_concat(a, opt_concat(b, c)),
{
    if let (Some(x), Some(y), Some(z)) = (a, b, c) {
        assert((x + y) + z =~= x + (y + z));
    }
}

proof fn lemma_opt_concat_empty(a: Option<Seq<char>>)
    ensures
        opt_concat(a, Some(Seq::empty())) == a,
        opt_concat(Some(Seq::empty()), a) == a,
{
    if let Some(x) = a {
        assert(x + Seq::empty() =~= x);
        assert(Seq::empty() + x =~= x);
    }
}

fn push_opt(out: &mut Option<String>, s: &str)
    ensures
        match *old(out) {
            Some(o) => *final(out) matches Some(n) && n@ == o@ + s@,
            None => *final(out) is None,
        },
{
    match out {
        Some(o) => push_str(o, s),
        None => {},
    }
}

fn push_opt_opt(out: &mut Option<String>, s: Option<String>)
    ensures
        match (*old(out), s) {
            (Some(o), Some(t)) => *final(out) matches Some(n) && n@ == o@ + t@,
            _ => *final(out) is None,
        },
{
    match s {
        Some(t) => push_opt(out, t.as_str()),
        None => {
            *out = None;
        },
    }
}

pub open spec fn opt_string_view(o: Option<String>) -> Option<Seq<char>> {
    match o {
        Some(s) => Some(s@),
        None => None,
    }
}

impl NvimValue {
    /// Lua truthiness: everything but `nil` and `false`.
    pub fn is_truthy(&self) -> (b: bool)
        ensures
            b == truthy(*self),
    {
        match self {
            NvimValue::Nil => false,
            NvimValue::Bool(b) => *b,
            _ => true,
        }
    }

    /// How the value is shown to an agent.
    pub fn format_display(&self) -> (s: String)
        ensures
            s@ == display(*self),
        decreases *self, 0nat,
    {
        match self {
            NvimValue::Nil => "nil".to_string(),
            NvimValue::Bool(b) => if *b {
                "true".to_string()
            } else {
                "false".to_string()
            },
            NvimValue::Integer(i) => {
                let mut s = String::new();
                push_signed_decimal(&mut s, *i);
                s
            },
            NvimValue::Float(f) => f.display.clone(),
            NvimValue::String(s) => s.clone(),
            NvimValue::Array(items) => {
                let mut s = "{ ".to_string();
                let mut i: usize = 0;
                while i < items.len()
                    invariant
                        i <= items.len(),
                        *self == NvimValue::Array(*items),
                        s@ == "{ "@ + display_items(items@, i as nat),
                    decreases items.len() - i,
                {
                    if i > 0 {
                        push_str(&mut s, ", ");
                    }
                    proof {
                        assert(decreases_to!(*self => self->Array_0));
                        assert(decreases_to!(self->Array_0 => items@));
                        assert(decreases_to!(items@ => items@[i as int]));
                    }
                    let part = items[i].format_display_nested();
                    push_str(&mut s, part.as_str());
                    i += 1;
                    assert(s@ =~= "{ "@ + display_items(items@, i as nat));
                }
                push_str(&mut s, " }");
                s
            },
            NvimValue::Dict(entries) => {
                let mut s = "{ ".to_string();
                let mut i: usize = 0;
                while i < entries.len()
                    invariant
                        i <= entries.len(),
                        *self == NvimValue::Dict(*entries),
                        s@ == "{ "@ + display_entries(entries@, i as nat),
                    decreases entries.len() - i,
                {
                    if i > 0 {
                        push_str(&mut s, ", ");
                    }
                    let (key, value) = &entries[i];
                    push_str(&mut s, key.as_str());
                    push_str(&mut s, " = ");
                    proof {
                        assert(decreases_to!(*self => self->Dict_0));
                        assert(decreases_to!(self->Dict_0 => entries@));
                        assert(decreases_to!(entries@ => entries@[i as int]));
                        assert(decreases_to!(entries@[i as int] => entries@[i as int].1));
                    }
                    let part = value.format_display_nested();
                    push_str(&mut s, part.as_str());
                    i += 1;
                    assert(s@ =~= "{ "@ + display_entries(entries@, i as nat));
                }
                push_str(&mut s, " }");
                s
            },
        }
    }

    fn format_display_nested(&self) -> (s: String)
        ensures
            s@ == nested_display(*self),
        decreases *self, 1nat,
    {
        match self {
            NvimValue::String(v) => debug_string(v.as_str()),
            _ => self.format_display(),
        }
    }

    fn to_json(&self) -> (r: Option<String>)
        ensures
            opt_string_view(r) == json(*self),
        decreases *self,
    {
        proof {
            reveal_strlit("[");
            reveal_strlit("]");
            reveal_strlit("{");
            reveal_strlit("}");
            reveal_strlit(",");
            reveal_strlit(":");
        }
        match self {
            NvimValue::Nil => Some("null".to_string()),
            NvimValue::Bool(b) => if *b {
                Some("true".to_string())
            } else {
                Some("false".to_string())
            },
            NvimValue::Integer(i) => {
                let mut s = String::new();
                push_signed_decimal(&mut s, *i);
                Some(s)
            },
            NvimValue::Float(f) => Some(f.json.clone()),
            NvimValue::String(s) => json_string(s.as_str()),
            NvimValue::Array(items) => {
                let mut out: Option<String> = Some("[".to_string());
                let mut i: usize = 0;
                assert(opt_string_view(out) =~~= opt_concat(Some(seq!['[']), json_items(items@, 0)));
                while i < items.len()
                    invariant
                        i <= items.len(),
                        *self == NvimValue::Array(*items),
                        opt_string_view(out) == opt_concat(Some(seq!['[']), json_items(items@, i as nat)),
                    decreases items.len() - i,
                {
                    proof {
                        reveal_strlit(",");
                        reveal_strlit(":");
                    }
                    if i > 0 {
                        push_opt(&mut out, ",");
                    }
                    proof {
                        assert(decreases_to!(*self => self->Array_0));
                        assert(decreases_to!(self->Array_0 => items@));
                        assert(decreases_to!(items@ => items@[i as int]));
                    }
                    let part = items[i].to_json();
                    push_opt_opt(&mut out, part);
                    proof {
                        let p = json(items@[i as int]);
                        if i == 0 {
                            lemma_opt_concat_empty(Some(seq!['[']));
                        } else {
                            lemma_opt_concat_assoc(Some(seq!['[']), json_items(items@, i as nat), Some(seq![',']));
                            lemma_opt_concat_assoc(Some(seq!['[']), opt_concat(json_items(items@, i as nat), Some(seq![','])), p);
                        }
                    }
                    i += 1;
                }
                push_opt(&mut out, "]");
                out
            },
            NvimValue::Dict(entries) => {
                let mut out: Option<String> = Some("{".to_string());
                let mut i: usize = 0;
                assert(opt_string_view(out) =~~= opt_concat(Some(seq!['{']), json_entries(entries@, 0)));
                while i < entries.len()
                    invariant
                        i <= entries.len(),
                        *self == NvimValue::Dict(*entries),
                        opt_string_view(out) == opt_concat(Some(seq!['{']), json_entries(entries@, i as nat)),
                    decreases entries.len() - i,
                {
                    proof {
                        reveal_strlit(",");
                        reveal_strlit(":");
                    }
                    if i > 0 {
                        push_opt(&mut out, ",");
                    }
                    let (key, value) = &entries[i];
                    let ghost acc = opt_string_view(out);
                    let jk = json_string(key.as_str());
                    push_opt_opt(&mut out, jk);
                    assert(opt_string_view(out) == opt_concat(acc, json_quoted(entries@[i as int].0@)));
                    push_opt(&mut out, ":");
                    assert(opt_string_view(out) == opt_concat(opt_concat(acc, json_quoted(entries@[i as int].0@)), Some(seq![':'])));
                    proof {
                        assert(decreases_to!(*self => self->Dict_0));
                        assert(decreases_to!(self->Dict_0 => entries@));
                        assert(decreases_to!(entries@ => entries@[i as int]));
                        assert(decreases_to!(entries@[i as int] => entries@[i as int].1));
                    }
                    let part = value.to_json();
                    push_opt_opt(&mut out, part);
                    assert(opt_string_view(out) == opt_concat(opt_concat(opt_concat(acc, json_quoted(entries@[i as int].0@)), Some(seq![':'])), json(entries@[i as int].1)));
                    proof {
                        let e = entries@[i as int];
                        let one = opt_concat(opt_concat(json_quoted(e.0@), Some(seq![':'])), json(e.1));
                        lemma_opt_concat_assoc(acc, json_quoted(e.0@), Some(seq![':']));
                        lemma_opt_concat_assoc(acc, opt_concat(json_quoted(e.0@), Some(seq![':'])), json(e.1));
                        if i == 0 {
                            lemma_opt_concat_empty(Some(seq!['{']));
                        } else {
                            lemma_opt_concat_assoc(Some(seq!['{']), json_entries(entries@, i as nat), Some(seq![',']));
                            lemma_opt_concat_assoc(Some(seq!['{']), opt_concat(json_entries(entries@, i as nat), Some(seq![','])), one);
                        }
                    }
                    i += 1;
                }
                push_opt(&mut out, "}");
                out
            },
        }
    }

    /// The value as compact JSON, `null` when it cannot be encoded.
    pub fn format_compact(&self) -> (s: String)
        ensures
            s@ == compact(*self),
    {
        match self.to_json() {
            Some(t) => t,
            None => "null".to_string(),
        }
    }

    /// A string as it is; anything else as compact JSON.
    pub fn format_raw(&self) -> (s: String)
        ensures
            s@ == raw(*self),
    {
        match self {
            NvimValue::String(v) => v.clone(),
            _ => self.format_compact(),
        }
    }
}

/// What a message read from the RPC socket means for a pending request.
#[derive(Debug, PartialEq)]
pub enum RpcReply {
    /// Not the response to this request (a notification, another id, ...).
    Unrelated,
    /// The response reports an error, rendered for the agent.
    Failed(String),
    /// The response carries this result.
    Returned(NvimValue),
}

/// `[1, id, error, result]` is the response to request `id`.
pub open spec fn is_response_to(response: NvimValue, request_id: i64) -> bool {
    &&& response is Array
    &&& response->Array_0@.len() >= 4
    &&& response->Array_0@[0] == NvimValue::Integer(1)
    &&& response->Array_0@[1] == NvimValue::Integer(request_id)
}

pub open spec fn api_error_message(method: Seq<char>, error: NvimValue) -> Seq<char> {
    "Neovim API error from `"@ + method + "`: "@ + compact(error)
}

/// Reads a message that arrived while waiting for request `request_id` of
/// `method`: the result when it answers the request without error, the error
/// when it answers with one, and `Unrelated` otherwise.
pub fn classify_response(response: NvimValue, request_id: i64, method: &str) -> (r: RpcReply)
    ensures
        !is_response_to(response, request_id) ==> r is Unrelated,
        is_response_to(response, request_id) && response->Array_0@[2] is Nil ==> r
            == RpcReply::Returned(response->Array_0@[3]),
        is_response_to(response, request_id) && !(response->Array_0@[2] is Nil) ==> (r matches RpcReply::Failed(m)
            && m@ == api_error_message(method@, response->Array_0@[2])),
{
    let mut items = match response {
        NvimValue::Array(items) => items,
        _ => return RpcReply::Unrelated,
    };
    if items.len() < 4 {
        return RpcReply::Unrelated;
    }
    let kind_ok = match &items[0] {
        NvimValue::Integer(k) => *k == 1,
        _ => false,
    };
    let id_ok = match &items[1] {
        NvimValue::Integer(k) => *k == request_id,
        _ => false,
    };
    if !kind_ok || !id_ok {
        return RpcReply::Unrelated;
    }
    let is_nil = match &items[2] {
        NvimValue::Nil => true,
        _ => false,
    };
    if !is_nil {
        let mut m = "Neovim API error from `".to_string();
        push_str(&mut m, method);
        push_str(&mut m, "`: ");
        let e = items[2].format_compact();
        push_str(&mut m, e.as_str());
        return RpcReply::Failed(m);
    }
    let result = items.swap_remove(3);
    RpcReply::Returned(result)
}

/// The value stored under `key` in `entries` (the first such entry).
pub open spec fn lookup(entries: Seq<(String, NvimValue)>, key: Seq<char>) -> Option<NvimValue>
    decreases entries.len(),
{
    if entries.len() == 0 {
        None
    } else if entries[0].0@ == key {
        Some(entries[0].1)
    } else {
        lookup(entries.drop_first(), key)
    }
}

/// The text that `nvim_exec2` captured: the `output` string of its result map,
/// or empty.
pub open spec fn exec_output_text(result: NvimValue) -> Seq<char> {
    match result {
        NvimValue::Dict(entries) => match lookup(entries@, "output"@) {
            Some(NvimValue::String(s)) => s@,
            _ => Seq::empty(),
        },
        _ => Seq::empty(),
    }
}

/// The captured output of an `nvim_exec2` call with `output = true`.
pub fn exec_output(result: &NvimValue) -> (s: String)
    ensures
        s@ == exec_output_text(*result),
{
    let entries = match result {
        NvimValue::Dict(entries) => entries,
        _ => return String::new(),
    };
    let mut i: usize = 0;
    assert(entries@.skip(0) =~= entries@);
    while i < entries.len()
        invariant
            i <= entries.len(),
            *result == NvimValue::Dict(*entries),
            lookup(entries@, "output"@) == lookup(entries@.skip(i as int), "output"@),
        decreases entries.len() - i,
    {
        assert(entries@.skip(i as int).drop_first() =~= entries@.skip(i + 1));
        let (key, value) = &entries[i];
        if crate::text::str_equal(key.as_str(), "output") {
            return match value {
                NvimValue::String(s) => s.clone(),
                _ => String::new(),
            };
        }
        i += 1;
    }
    String::new()
}

} // verus!
