use panedrive::{parse_keys, Key, TmuxKey, ZellijKey};

#[test]
fn parses_named_keys_case_insensitively() {
    assert_eq!(Key::parse("Enter").unwrap(), Key::Enter);
    assert_eq!(Key::parse("enter").unwrap(), Key::Enter);
    assert_eq!(Key::parse("Down").unwrap(), Key::Down);
    assert_eq!(Key::parse("ESC").unwrap(), Key::Esc);
}

#[test]
fn parses_ctrl_and_literal() {
    assert_eq!(Key::parse("C-c").unwrap(), Key::Ctrl('c'));
    assert_eq!(Key::parse("c-x").unwrap(), Key::Ctrl('x'));
    assert_eq!(Key::parse("q").unwrap(), Key::Char('q'));
    assert_eq!(Key::parse("2").unwrap(), Key::Char('2'));
}

#[test]
fn rejects_garbage_rather_than_guessing() {
    assert!(Key::parse("wat").is_err());
    assert!(Key::parse("C-").is_err());
    assert!(Key::parse("C-ab").is_err());
    assert!(Key::parse("").is_err());
}

#[test]
fn tmux_encoding_splits_literal_from_named() {
    assert_eq!(Key::Char('a').to_tmux(), TmuxKey::Literal('a'));
    assert_eq!(Key::Enter.to_tmux(), TmuxKey::Named("Enter".into()));
    assert_eq!(Key::Esc.to_tmux(), TmuxKey::Named("Escape".into()));
    assert_eq!(Key::Ctrl('c').to_tmux(), TmuxKey::Named("C-c".into()));
}

#[test]
fn zellij_encoding_splits_chars_from_raw_bytes() {
    assert_eq!(Key::Char('a').to_zellij(), ZellijKey::Chars('a'));
    assert_eq!(Key::Char('é').to_zellij(), ZellijKey::Chars('é'));
    assert_eq!(Key::Enter.to_zellij(), ZellijKey::Bytes(vec![b'\r']));
    assert_eq!(Key::Esc.to_zellij(), ZellijKey::Bytes(vec![0x1b]));
    assert_eq!(
        Key::Up.to_zellij(),
        ZellijKey::Bytes(vec![0x1b, b'[', b'A'])
    );
    assert_eq!(Key::Ctrl('c').to_zellij(), ZellijKey::Bytes(vec![0x03]));
}

#[test]
fn parse_keys_handles_separators_and_skips_blanks() {
    let ks = parse_keys("2  Down,Down Enter").unwrap();
    assert_eq!(ks, vec![Key::Char('2'), Key::Down, Key::Down, Key::Enter]);
    assert!(parse_keys("").unwrap().is_empty());
}

#[test]
fn to_bytes_encodes_control_and_escape_sequences() {
    assert_eq!(Key::Char('a').to_bytes(), b"a");
    assert_eq!(Key::Char('é').to_bytes(), "é".as_bytes());
    assert_eq!(Key::Enter.to_bytes(), vec![b'\r']);
    assert_eq!(Key::Tab.to_bytes(), vec![b'\t']);
    assert_eq!(Key::Backspace.to_bytes(), vec![0x7f]);
    assert_eq!(Key::Esc.to_bytes(), vec![0x1b]);
    assert_eq!(Key::Up.to_bytes(), vec![0x1b, b'[', b'A']);
    assert_eq!(Key::Down.to_bytes(), vec![0x1b, b'[', b'B']);
    assert_eq!(Key::Right.to_bytes(), vec![0x1b, b'[', b'C']);
    assert_eq!(Key::Left.to_bytes(), vec![0x1b, b'[', b'D']);
    assert_eq!(Key::Ctrl('c').to_bytes(), vec![0x03]);
    assert_eq!(Key::Ctrl('a').to_bytes(), vec![0x01]);
}

#[test]
fn parses_every_named_key_and_its_aliases() {
    assert_eq!(Key::parse("Tab").unwrap(), Key::Tab);
    assert_eq!(Key::parse("Backspace").unwrap(), Key::Backspace);
    assert_eq!(Key::parse("bspace").unwrap(), Key::Backspace);
    assert_eq!(Key::parse("bs").unwrap(), Key::Backspace);
    assert_eq!(Key::parse("Up").unwrap(), Key::Up);
    assert_eq!(Key::parse("Left").unwrap(), Key::Left);
    assert_eq!(Key::parse("Right").unwrap(), Key::Right);
    assert_eq!(Key::parse("return").unwrap(), Key::Enter);
}

#[test]
fn ctrl_of_an_upper_case_letter_is_the_same_control_byte() {
    assert_eq!(Key::Ctrl('C').to_bytes(), vec![0x03]);
    assert_eq!(Key::parse("C-Z").unwrap().to_bytes(), vec![0x1a]);
}

#[test]
fn a_multi_character_token_is_rejected_in_a_spec() {
    assert!(parse_keys("Down Dwon").is_err());
    assert_eq!(parse_keys(" , ,").unwrap(), Vec::<Key>::new());
}
