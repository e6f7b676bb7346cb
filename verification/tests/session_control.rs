use neowright::session_control::translate_pty_keys;

#[test]
fn pty_keys_translate_plain_text_and_special_keys() {
    assert_eq!(translate_pty_keys("hello").unwrap(), b"hello");
    assert_eq!(translate_pty_keys("ihello<Esc>").unwrap(), b"ihello\x1b");
    assert_eq!(translate_pty_keys("<Escape>").unwrap(), b"\x1b");
    assert_eq!(
        translate_pty_keys("<CR><Enter><Return>").unwrap(),
        b"\r\r\r"
    );
    assert_eq!(translate_pty_keys("a<Tab>b").unwrap(), b"a\tb");
    assert_eq!(translate_pty_keys("a<BS>b").unwrap(), b"a\x7fb");
    assert_eq!(translate_pty_keys("<lt>").unwrap(), b"<");
}

#[test]
fn pty_keys_translate_control_notation() {
    assert_eq!(translate_pty_keys("<C-c>").unwrap(), vec![0x03]);
    assert_eq!(translate_pty_keys("<c-m>").unwrap(), b"\r");
    assert_eq!(translate_pty_keys("<C-[>").unwrap(), b"\x1b");
    assert_eq!(translate_pty_keys("<C-?>").unwrap(), vec![0x7f]);
}

#[test]
fn pty_keys_translate_alt_notation() {
    assert_eq!(translate_pty_keys("<M-x>").unwrap(), b"\x1bx");
    assert_eq!(translate_pty_keys("<A-x>").unwrap(), b"\x1bx");
    assert_eq!(translate_pty_keys("<M-X>").unwrap(), b"\x1bX");
    assert_eq!(
        translate_pty_keys("<M-\u{00e5}>").unwrap(),
        "\u{1b}\u{00e5}".as_bytes()
    );
}

#[test]
fn pty_keys_reject_unsupported_notation() {
    let error = translate_pty_keys("<leader>").unwrap_err();
    assert!(error.contains("unsupported PTY key notation: <leader>"));
    assert!(error.contains("--pty supports"));

    assert!(translate_pty_keys("<F1>").is_err());
    assert!(translate_pty_keys("<Up>").is_err());
    assert!(translate_pty_keys("<M->").is_err());
}

#[test]
fn pty_keys_treat_unclosed_angle_as_literal_text() {
    assert_eq!(translate_pty_keys("a<broken").unwrap(), b"a<broken");
}

#[test]
fn pty_keys_encode_plain_text_as_utf8() {
    assert_eq!(translate_pty_keys("表<CR>").unwrap(), "表\r".as_bytes());
}

#[test]
fn pty_keys_upper_case_control_letters_are_lowered() {
    assert_eq!(translate_pty_keys("<C-C>").unwrap(), vec![0x03]);
    assert!(translate_pty_keys("<C-cc>").is_err());
    assert!(translate_pty_keys("<M-a<b>").is_err());
}

#[test]
fn pty_keys_first_refused_token_is_reported() {
    assert_eq!(
        translate_pty_keys("x<Esc><Nope><Also>").unwrap_err(),
        "unsupported PTY key notation: <Nope>; --pty supports only plain text, <Esc>, <CR>, <Tab>, <BS>, <lt>, <C-x>, and <M-x> terminal-level notation"
    );
}
