use panedrive::script::{DEFAULT_INTERVAL_MS, DEFAULT_TIMEOUT_MS};
use panedrive::{parse_script, Condition, Key, Step, TypeSource};

#[test]
fn parse_skips_blanks_and_comments() {
    assert_eq!(Step::parse("").unwrap(), None);
    assert_eq!(Step::parse("   ").unwrap(), None);
    assert_eq!(Step::parse("# a comment").unwrap(), None);
}

#[test]
fn parse_each_verb() {
    assert_eq!(
        Step::parse("press 2 Down Enter").unwrap().unwrap(),
        Step::Press(vec![Key::Char('2'), Key::Down, Key::Enter])
    );
    assert_eq!(
        Step::parse("type hello world").unwrap().unwrap(),
        Step::Type {
            source: TypeSource::Literal("hello world".to_string()),
            paste: false,
        }
    );
    assert_eq!(Step::parse("capture").unwrap().unwrap(), Step::Capture);
    assert_eq!(
        Step::parse("assert focus=fleet").unwrap().unwrap(),
        Step::Assert(Condition::parse("focus=fleet").unwrap())
    );
}

#[test]
fn parse_sleep_forms() {
    assert_eq!(Step::parse("sleep 200ms").unwrap().unwrap(), Step::Sleep(200));
    assert_eq!(Step::parse("sleep 1s").unwrap().unwrap(), Step::Sleep(1000));
    assert_eq!(Step::parse("sleep 50").unwrap().unwrap(), Step::Sleep(50));
    assert!(Step::parse("sleep nope").is_err());
}

#[test]
fn parse_wait_until_defaults_and_flags() {
    assert_eq!(
        Step::parse("wait-until count=1").unwrap().unwrap(),
        Step::WaitUntil {
            cond: Condition::parse("count=1").unwrap(),
            timeout_ms: DEFAULT_TIMEOUT_MS,
            interval_ms: DEFAULT_INTERVAL_MS,
        }
    );
    assert_eq!(
        Step::parse("wait-until count=1 --timeout-ms 2000 --interval-ms 10")
            .unwrap()
            .unwrap(),
        Step::WaitUntil {
            cond: Condition::parse("count=1").unwrap(),
            timeout_ms: 2000,
            interval_ms: 10,
        }
    );
    assert!(Step::parse("wait-until").is_err());
    assert!(Step::parse("wait-until count=1 --timeout-ms").is_err());
    assert!(Step::parse("wait-until count=1 --timeout-ms nope").is_err());
    assert!(Step::parse("wait-until count=1 --bogus 1").is_err());
}

#[test]
fn parse_rejects_unknown_verbs() {
    assert!(Step::parse("frobnicate x").is_err());
}

#[test]
fn press_needs_at_least_one_key() {
    assert!(Step::parse("press").is_err());
    assert!(Step::parse("press   ").is_err());
    assert!(Step::parse("press ,").is_err());
}

#[test]
fn type_preserves_leading_and_trailing_whitespace() {
    assert_eq!(
        Step::parse("type   x").unwrap().unwrap(),
        Step::Type {
            source: TypeSource::Literal("  x".to_string()),
            paste: false,
        }
    );
    assert_eq!(
        Step::parse("type foo ").unwrap().unwrap(),
        Step::Type {
            source: TypeSource::Literal("foo ".to_string()),
            paste: false,
        }
    );
}

#[test]
fn type_parses_secret_and_paste_flags() {
    assert_eq!(
        Step::parse("type --from-env VAULT_PASS").unwrap().unwrap(),
        Step::Type {
            source: TypeSource::FromEnv("VAULT_PASS".to_string()),
            paste: false,
        }
    );
    assert_eq!(
        Step::parse("type --paste --from-env VAULT_PASS")
            .unwrap()
            .unwrap(),
        Step::Type {
            source: TypeSource::FromEnv("VAULT_PASS".to_string()),
            paste: true,
        }
    );
    assert_eq!(
        Step::parse("type --paste hi there").unwrap().unwrap(),
        Step::Type {
            source: TypeSource::Literal("hi there".to_string()),
            paste: true,
        }
    );
    assert_eq!(
        Step::parse("type --pastel colour").unwrap().unwrap(),
        Step::Type {
            source: TypeSource::Literal("--pastel colour".to_string()),
            paste: false,
        }
    );
    assert!(Step::parse("type --from-env").is_err());
    assert!(Step::parse("type --from-env VAR trailing").is_err());
    assert!(Step::parse("type --paste").is_err());
}

#[test]
fn leading_indentation_is_allowed() {
    assert_eq!(Step::parse("    capture").unwrap().unwrap(), Step::Capture);
    assert_eq!(Step::parse("   # comment").unwrap(), None);
}

#[test]
fn parse_script_reports_the_bad_line_number() {
    let text = "press Enter\n\n# ok\nfrobnicate\n";
    let err = parse_script(text).unwrap_err();
    assert!(err.contains("line 4"), "got: {err}");
}

#[test]
fn parse_script_keeps_the_steps_in_order() {
    let steps = parse_script("press Up\r\n# c\nsleep 2s\nassert n>=3\n").unwrap();
    assert_eq!(
        steps,
        vec![
            Step::Press(vec![Key::Up]),
            Step::Sleep(2000),
            Step::Assert(Condition::parse("n>=3").unwrap()),
        ]
    );
    assert_eq!(parse_script("").unwrap(), Vec::<Step>::new());
}

#[test]
fn the_first_bad_line_is_the_one_reported() {
    let err = parse_script("press Nope\nfrobnicate\n").unwrap_err();
    assert!(err.starts_with("line 1: "), "got: {err}");
}
