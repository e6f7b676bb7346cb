use neowright::dict::{dict_from_entries, key_lt};
use neowright::nvim::{classify_response, exec_output, FloatText, NvimValue, RpcReply};

fn s(text: &str) -> NvimValue {
    NvimValue::String(text.to_string())
}

#[test]
fn scalars_display_like_lua_values() {
    assert_eq!(NvimValue::Nil.format_display(), "nil");
    assert_eq!(NvimValue::Bool(true).format_display(), "true");
    assert_eq!(NvimValue::Bool(false).format_display(), "false");
    assert_eq!(NvimValue::Integer(-42).format_display(), "-42");
    assert_eq!(s("hello\nworld").format_display(), "hello\nworld");
}

#[test]
fn nested_strings_are_quoted_and_escaped() {
    let value = NvimValue::Array(vec![NvimValue::Integer(1), s("a\nb")]);
    assert_eq!(value.format_display(), "{ 1, \"a\\nb\" }");
}

#[test]
fn maps_display_as_key_value_pairs() {
    let value = NvimValue::Dict(vec![
        ("answer".to_string(), NvimValue::Integer(42)),
        ("name".to_string(), s("x")),
    ]);
    assert_eq!(value.format_display(), "{ answer = 42, name = \"x\" }");
    assert_eq!(NvimValue::Array(vec![]).format_display(), "{  }");
}

#[test]
fn compact_form_is_json() {
    let value = NvimValue::Dict(vec![
        ("answer".to_string(), NvimValue::Integer(42)),
        ("list".to_string(), NvimValue::Array(vec![NvimValue::Nil, NvimValue::Bool(true)])),
    ]);
    assert_eq!(value.format_compact(), "{\"answer\":42,\"list\":[null,true]}");
    assert_eq!(NvimValue::Array(vec![]).format_compact(), "[]");
    assert_eq!(s("a\"b").format_compact(), "\"a\\\"b\"");
}

#[test]
fn floats_show_their_recorded_texts() {
    let value = NvimValue::Float(FloatText {
        display: "1.5".to_string(),
        json: "1.5".to_string(),
    });
    assert_eq!(value.format_display(), "1.5");
    let nan = NvimValue::Array(vec![NvimValue::Float(FloatText {
        display: "NaN".to_string(),
        json: "null".to_string(),
    })]);
    assert_eq!(nan.format_compact(), "[null]");
    assert_eq!(nan.format_display(), "{ NaN }");
}

#[test]
fn raw_form_is_bare_strings_and_json_otherwise() {
    assert_eq!(s("hello").format_raw(), "hello");
    assert_eq!(NvimValue::Integer(42).format_raw(), "42");
    assert_eq!(NvimValue::Nil.format_raw(), "null");
    let value = NvimValue::Dict(vec![("answer".to_string(), NvimValue::Integer(42))]);
    assert_eq!(value.format_raw(), "{\"answer\":42}");
}

#[test]
fn only_nil_and_false_are_falsy() {
    assert!(!NvimValue::Nil.is_truthy());
    assert!(!NvimValue::Bool(false).is_truthy());
    assert!(NvimValue::Bool(true).is_truthy());
    assert!(NvimValue::Integer(0).is_truthy());
    assert!(s("").is_truthy());
}

fn response(kind: i64, id: i64, error: NvimValue, result: NvimValue) -> NvimValue {
    NvimValue::Array(vec![NvimValue::Integer(kind), NvimValue::Integer(id), error, result])
}

#[test]
fn response_to_the_request_returns_its_result() {
    let reply = classify_response(response(1, 7, NvimValue::Nil, s("ok")), 7, "nvim_exec_lua");
    assert_eq!(reply, RpcReply::Returned(s("ok")));
}

#[test]
fn other_messages_are_unrelated() {
    let other_id = classify_response(response(1, 8, NvimValue::Nil, s("ok")), 7, "nvim_exec_lua");
    assert_eq!(other_id, RpcReply::Unrelated);
    let notification = classify_response(
        NvimValue::Array(vec![NvimValue::Integer(2), s("redraw"), NvimValue::Array(vec![])]),
        7,
        "nvim_exec_lua",
    );
    assert_eq!(notification, RpcReply::Unrelated);
    assert_eq!(classify_response(NvimValue::Nil, 7, "nvim_exec_lua"), RpcReply::Unrelated);
}

#[test]
fn error_responses_name_the_method() {
    let error = NvimValue::Array(vec![NvimValue::Integer(0), s("boom")]);
    let reply = classify_response(response(1, 3, error, NvimValue::Nil), 3, "nvim_exec_lua");
    assert_eq!(
        reply,
        RpcReply::Failed("Neovim API error from `nvim_exec_lua`: [0,\"boom\"]".to_string())
    );
}

#[test]
fn exec_output_reads_the_output_entry() {
    let result = NvimValue::Dict(vec![("output".to_string(), s("from exec"))]);
    assert_eq!(exec_output(&result), "from exec");
    let not_text = NvimValue::Dict(vec![("output".to_string(), NvimValue::Integer(1))]);
    assert_eq!(exec_output(&not_text), "");
    assert_eq!(exec_output(&NvimValue::Nil), "");
    assert_eq!(exec_output(&NvimValue::Dict(vec![])), "");
}

#[test]
fn map_entries_are_sorted_and_the_last_value_wins() {
    let value = dict_from_entries(vec![
        ("b".to_string(), NvimValue::Integer(1)),
        ("a".to_string(), NvimValue::Integer(2)),
        ("b".to_string(), NvimValue::Integer(3)),
    ]);
    assert_eq!(
        value,
        NvimValue::Dict(vec![
            ("a".to_string(), NvimValue::Integer(2)),
            ("b".to_string(), NvimValue::Integer(3)),
        ])
    );
    assert_eq!(dict_from_entries(vec![]), NvimValue::Dict(vec![]));
}

#[test]
fn keys_order_like_strings() {
    assert!(key_lt("Z", "a"));
    assert!(key_lt("a", "ab"));
    assert!(!key_lt("ab", "a"));
    assert!(!key_lt("a", "a"));
    assert!(key_lt("z", "é"));
    let value = dict_from_entries(vec![
        ("é".to_string(), NvimValue::Nil),
        ("ab".to_string(), NvimValue::Nil),
        ("a".to_string(), NvimValue::Nil),
        ("Z".to_string(), NvimValue::Nil),
    ]);
    let keys: Vec<String> = match value {
        NvimValue::Dict(entries) => entries.into_iter().map(|(k, _)| k).collect(),
        _ => panic!("not a map"),
    };
    let mut sorted = keys.clone();
    sorted.sort();
    assert_eq!(keys, sorted);
    assert_eq!(keys, vec!["Z", "a", "ab", "é"]);
}

#[test]
fn strings_are_escaped_as_serde_json_writes_them() {
    for text in ["plain", "a\"b", "back\\slash", "\u{8}\u{c}\n\r\t", "\u{1}\u{1f}\u{7f}", "é表"] {
        let expected = serde_json::to_string(text).expect("json");
        assert_eq!(s(text).format_compact(), expected);
    }
    assert_eq!(s("\u{1}").format_compact(), "\"\\u0001\"");
}
