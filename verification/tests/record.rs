use panedrive::ScriptRecorder;

#[test]
fn typed_text_becomes_a_single_type_line() {
    let mut r = ScriptRecorder::new();
    r.feed(b"hello");
    assert_eq!(r.finish(), "type hello\n");
}

#[test]
fn enter_flushes_the_literal_and_emits_press() {
    let mut r = ScriptRecorder::new();
    r.feed(b"inc\r");
    assert_eq!(r.finish(), "type inc\npress Enter\n");
}

#[test]
fn arrow_keys_decode_even_when_split_across_feeds() {
    let mut r = ScriptRecorder::new();
    r.feed(b"\x1b");
    r.feed(b"[");
    r.feed(b"A");
    r.feed(b"\x1b[B");
    assert_eq!(r.finish(), "press Up\npress Down\n");
}

#[test]
fn escape_sequence_split_across_two_feeds_decodes_as_one_key() {
    let mut r = ScriptRecorder::new();
    r.feed(b"\x1b");
    r.feed(b"[A");
    assert_eq!(r.finish(), "press Up\n");
}

#[test]
fn ctrl_letters_and_named_keys() {
    let mut r = ScriptRecorder::new();
    r.feed(b"a");
    r.feed(&[0x03]);
    r.feed(&[0x09]);
    r.feed(&[0x7f]);
    assert_eq!(
        r.finish(),
        "type a\npress C-c\npress Tab\npress Backspace\n"
    );
}

#[test]
fn empty_input_yields_empty_script() {
    assert_eq!(ScriptRecorder::new().finish(), "");
}

#[test]
fn feeding_in_pieces_matches_feeding_at_once() {
    let stream: &[u8] = b"ab\x1b[Cx\x1bq\x1b[Zy\x01\x00\x1c\n";
    let mut whole = ScriptRecorder::new();
    whole.feed(stream);
    let expected = whole.finish();
    assert_eq!(
        expected,
        "type ab\npress Right\ntype x\npress Escape\ntype q\npress Escape\ntype y\npress C-a\npress Enter\n"
    );
    for cut in 0..=stream.len() {
        let mut parts = ScriptRecorder::new();
        parts.feed(&stream[..cut]);
        parts.feed(&stream[cut..]);
        assert_eq!(parts.finish(), expected, "cut at {cut}");
    }
    let mut bytewise = ScriptRecorder::new();
    for b in stream {
        bytewise.feed(&[*b]);
    }
    assert_eq!(bytewise.finish(), expected);
}

#[test]
fn a_trailing_incomplete_escape_is_dropped_at_finish() {
    let mut r = ScriptRecorder::new();
    r.feed(b"hi\x1b[");
    assert_eq!(r.finish(), "type hi\n");
}

#[test]
fn non_ascii_text_is_kept_and_invalid_bytes_are_replaced() {
    let mut r = ScriptRecorder::new();
    r.feed("é".as_bytes());
    r.feed(&[0xff]);
    assert_eq!(r.finish(), "type é\u{fffd}\n");
}

fn replayed(script: &str) -> Vec<u8> {
    let steps = panedrive::parse_script(script).unwrap();
    let mut out = Vec::new();
    for st in steps {
        match st {
            panedrive::Step::Press(ks) => {
                assert_eq!(ks.len(), 1);
                out.extend(ks[0].to_bytes());
            }
            panedrive::Step::Type { source: panedrive::TypeSource::Literal(t), paste } => {
                assert!(!paste);
                out.extend(t.as_bytes());
            }
            other => panic!("unexpected step {:?}", other),
        }
    }
    out
}

#[test]
fn a_recorded_session_replays_the_same_bytes() {
    let bytes: &[u8] = b"  ab \x1b[A\x1b[D\x03x y\r\t\x7fz\x1a";
    let mut r = ScriptRecorder::new();
    r.feed(&bytes[..4]);
    r.feed(&bytes[4..]);
    let script = r.finish();
    assert_eq!(replayed(&script), bytes.to_vec());
}

#[test]
fn only_ctrl_close_bracket_ends_a_recording() {
    assert!(panedrive::record::ends_recording(0x1d));
    assert!(!panedrive::record::ends_recording(0x1b));
    assert!(!panedrive::record::ends_recording(b'q'));
}
