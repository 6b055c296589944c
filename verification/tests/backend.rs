use panedrive::backend::{payload_bytes, Action, TmuxSend};
use panedrive::{parse_keys, plan_send, stuff_payload, Key, ScreenBackend, TmuxBackend, ZellijBackend};

fn action(name: &'static str, args: &[&str]) -> Action {
    Action {
        name,
        args: args.iter().map(|s| s.to_string()).collect(),
    }
}

#[test]
fn argv_prefixes_session_and_escapes_the_payload() {
    let z = ZellijBackend::new("demo".to_string());
    assert_eq!(
        z.argv(&action("write-chars", &["hi"])),
        vec!["--session=demo", "action", "write-chars", "--", "hi"]
    );
    assert_eq!(
        z.argv(&action("dump-screen", &["/tmp/x"])),
        vec!["--session=demo", "action", "dump-screen", "--", "/tmp/x"]
    );
}

#[test]
fn argv_escapes_dash_prefixed_text_as_literal() {
    let z = ZellijBackend::new("demo".to_string());
    assert_eq!(
        z.argv(&action("write-chars", &["-v"])),
        vec!["--session=demo", "action", "write-chars", "--", "-v"]
    );
}

#[test]
fn argv_omits_the_separator_when_there_is_no_payload() {
    let z = ZellijBackend::new("demo".to_string());
    assert_eq!(
        z.argv(&action("dump-screen", &[])),
        vec!["--session=demo", "action", "dump-screen"]
    );
}

#[test]
fn plan_coalesces_chars_and_splits_named_keys() {
    let keys = parse_keys("h i Enter y o").unwrap();
    assert_eq!(
        plan_send(&keys),
        vec![
            action("write-chars", &["hi"]),
            action("write", &["13"]),
            action("write-chars", &["yo"]),
        ]
    );
}

#[test]
fn plan_encodes_named_keys_as_decimal_bytes() {
    assert_eq!(
        plan_send(&parse_keys("Up").unwrap()),
        vec![action("write", &["27", "91", "65"])]
    );
    assert_eq!(
        plan_send(&parse_keys("C-c").unwrap()),
        vec![action("write", &["3"])]
    );
}

#[test]
fn plan_of_no_keys_is_empty() {
    assert!(plan_send(&[]).is_empty());
}

#[test]
fn stuff_payload_concatenates_raw_bytes() {
    assert_eq!(stuff_payload(&parse_keys("h i Enter").unwrap()), "hi\r");
    assert_eq!(stuff_payload(&parse_keys("Up").unwrap()), "\u{1b}[A");
    assert_eq!(stuff_payload(&parse_keys("C-c").unwrap()), "\u{3}");
    assert_eq!(stuff_payload(&[]), "");
}

#[test]
fn stuff_payload_keeps_non_ascii_characters() {
    assert_eq!(stuff_payload(&[Key::Char('é'), Key::Tab, Key::Char('ß')]), "é\tß");
}

#[test]
fn dump_file_names_are_session_scoped_and_sanitized() {
    assert_eq!(
        ScreenBackend::new("a/b".to_string()).dump_file_name(42),
        "panedrive-screen-a_b-42.dump"
    );
    assert_eq!(
        ZellijBackend::new("demo".to_string()).dump_file_name(7),
        "panedrive-zellij-demo-7.dump"
    );
    assert_eq!(
        ZellijBackend::new("a/b c".to_string()).dump_file_name(1),
        "panedrive-zellij-a_b_c-1.dump"
    );
}

#[test]
fn tmux_plan_coalesces_literal_runs() {
    let keys = parse_keys("h i Enter C-c y").unwrap();
    assert_eq!(
        TmuxBackend::plan_send(&keys),
        vec![
            TmuxSend::Literal("hi".into()),
            TmuxSend::Named("Enter".into()),
            TmuxSend::Named("C-c".into()),
            TmuxSend::Literal("y".into()),
        ]
    );
    assert!(TmuxBackend::plan_send(&[]).is_empty());
}

#[test]
fn tmux_argv_addresses_the_pane() {
    let t = TmuxBackend::new("s:0.1".to_string());
    assert_eq!(
        t.send_argv(&TmuxSend::Literal("-v".into())),
        vec!["send-keys", "-t", "s:0.1", "-l", "-v"]
    );
    assert_eq!(
        t.send_argv(&TmuxSend::Named("Enter".into())),
        vec!["send-keys", "-t", "s:0.1", "Enter"]
    );
    assert_eq!(t.capture_argv(), vec!["capture-pane", "-p", "-t", "s:0.1"]);
    let b = TmuxBackend::buffer_name(99);
    assert_eq!(b, "panedrive-99");
    assert_eq!(
        TmuxBackend::load_buffer_argv(&b),
        vec!["load-buffer", "-b", "panedrive-99", "-"]
    );
    assert_eq!(
        t.paste_buffer_argv(&b),
        vec!["paste-buffer", "-d", "-b", "panedrive-99", "-t", "s:0.1"]
    );
}

#[test]
fn screen_command_argv_names_the_session() {
    let s = ScreenBackend::new("work".to_string());
    assert_eq!(
        s.command_argv(&vec!["stuff".to_string(), "hi\r".to_string()]),
        vec!["-S", "work", "-X", "stuff", "hi\r"]
    );
}

#[test]
fn payload_bytes_are_the_keys_raw_bytes_in_order() {
    assert_eq!(
        payload_bytes(&[Key::Char('é'), Key::Up, Key::Ctrl('a')]),
        vec![0xc3, 0xa9, 0x1b, b'[', b'A', 0x01]
    );
    assert!(payload_bytes(&[]).is_empty());
}
