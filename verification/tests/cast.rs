use panedrive::cast::pipe_command;
use panedrive::{cast_header, parse_pane_size, shell_quote, Json};

#[test]
fn shell_quote_wraps_and_escapes() {
    assert_eq!(shell_quote("/tmp/a b"), "'/tmp/a b'");
}

#[test]
fn shell_quote_escapes_single_quotes() {
    assert_eq!(shell_quote("it's"), "'it'\\''s'");
    assert_eq!(shell_quote(""), "''");
    assert_eq!(pipe_command("/tmp/x.raw"), "cat >> '/tmp/x.raw'");
}

#[test]
fn cast_header_names_version_and_size() {
    let h = cast_header(80, 24);
    assert_eq!(h.get("version"), Some(&Json::integer(2)));
    assert_eq!(h.get("width"), Some(&Json::integer(80)));
    assert_eq!(h.get("height"), Some(&Json::integer(24)));
    assert_eq!(h.get("title"), Some(&Json::string("panedrive run")));
}

#[test]
fn pane_size_reads_width_and_height_or_defaults() {
    assert_eq!(parse_pane_size("120 40\n"), (120, 40));
    assert_eq!(parse_pane_size("  +7\t9 extra"), (7, 9));
    assert_eq!(parse_pane_size("120"), (80, 24));
    assert_eq!(parse_pane_size("70000 10"), (80, 24));
    assert_eq!(parse_pane_size("a b"), (80, 24));
    assert_eq!(parse_pane_size(""), (80, 24));
}
