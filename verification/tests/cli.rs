use panedrive::cli::{
    assert_report, cast_supported, env_unset_message, exit_code, no_state_report, one_shot_host,
    pick_text_source, run_host, run_report, seam_report_json, stdin_text, timeout_message,
    wait_held_report, wait_timeout_report, watch_line, Host, HostKind, TextSource,
};
use panedrive::{validate, Condition, FailReason, Json, Observed, RunEvent, RunResult, StepFailure};

fn obj(entries: Vec<(&str, Json)>) -> Json {
    Json::object(entries.into_iter().map(|(k, v)| (k.to_string(), v)).collect())
}

#[test]
fn text_source_must_be_exactly_one() {
    assert_eq!(
        pick_text_source(Some("hi".into()), false, None).unwrap(),
        TextSource::Literal("hi".into())
    );
    assert_eq!(pick_text_source(None, true, None).unwrap(), TextSource::Stdin);
    assert_eq!(
        pick_text_source(None, false, Some("V".into())).unwrap(),
        TextSource::Env("V".into())
    );
    let msg = "provide exactly one text source: a literal argument, --stdin, or --from-env VAR";
    assert_eq!(pick_text_source(None, false, None).unwrap_err(), msg);
    assert_eq!(pick_text_source(Some("a".into()), true, None).unwrap_err(), msg);
    assert_eq!(
        pick_text_source(Some("a".into()), false, Some("V".into())).unwrap_err(),
        msg
    );
}

#[test]
fn stdin_text_drops_one_line_ending() {
    assert_eq!(stdin_text("secret\n"), "secret");
    assert_eq!(stdin_text("secret\r\n"), "secret");
    assert_eq!(stdin_text("secret"), "secret");
    assert_eq!(stdin_text("a\n\n"), "a\n");
    assert_eq!(stdin_text("\r"), "\r");
    assert_eq!(env_unset_message("X"), "environment variable X is not set");
}

#[test]
fn one_shot_commands_refuse_the_pty_host() {
    assert!(one_shot_host(HostKind::Pty, "p".into()).unwrap_err().contains("pty"));
    assert!(matches!(one_shot_host(HostKind::Tmux, "p".into()).unwrap(), Host::Tmux(_)));
    assert!(matches!(one_shot_host(HostKind::Zellij, "p".into()).unwrap(), Host::Zellij(_)));
    assert!(matches!(one_shot_host(HostKind::Screen, "p".into()).unwrap(), Host::Screen(_)));
}

#[test]
fn run_reports_backend_selection_errors() {
    assert!(run_host(HostKind::Pty, None).unwrap().is_none());
    assert_eq!(
        run_host(HostKind::Tmux, None).unwrap_err(),
        "--pane is required for the tmux backend"
    );
    assert_eq!(
        run_host(HostKind::Zellij, None).unwrap_err(),
        "--pane (session name) is required for the zellij backend"
    );
    assert!(run_host(HostKind::Screen, Some("s".into())).unwrap().is_some());
    assert!(cast_supported(HostKind::Pty) && cast_supported(HostKind::Tmux));
    assert!(!cast_supported(HostKind::Zellij) && !cast_supported(HostKind::Screen));
}

#[test]
fn exit_codes_follow_the_run_result() {
    assert_eq!(exit_code(&RunResult::Passed), 0);
    let f = StepFailure {
        step: 1,
        kind: "assert",
        cond: "x=1".into(),
        path: "x".into(),
        reason: FailReason::NoState,
    };
    assert_eq!(exit_code(&RunResult::Failed(f)), 1);
}

#[test]
fn assert_and_wait_reports_name_the_outcome() {
    let c = Condition::parse("count=2").unwrap();
    let state = obj(vec![("count", Json::integer(1))]);
    assert_eq!(
        assert_report(&c, &state),
        obj(vec![
            ("ok", Json::boolean(false)),
            ("cond", Json::string("count=2")),
            ("path", Json::string("count")),
            ("actual", Json::string("1")),
        ])
    );
    assert_eq!(
        no_state_report(&c).get("error"),
        Some(&Json::string("no readable state"))
    );
    assert_eq!(wait_held_report(&c, 12).get("waited_ms"), Some(&Json::integer(12)));
    let t = wait_timeout_report(&c, 500, &Observed::Missing);
    assert_eq!(t.get("actual"), Some(&Json::null()));
    assert_eq!(t.get("timeout_ms"), Some(&Json::integer(500)));
    assert_eq!(
        timeout_message(&c, 500, &Observed::Scalar("1".into())),
        "timed out after 500 ms (count was 1)"
    );
}

#[test]
fn seam_and_run_reports() {
    let r = seam_report_json(&validate(&Json::string("x")));
    assert_eq!(r.get("ok"), Some(&Json::boolean(false)));
    assert_eq!(r.get("paths"), Some(&Json::integer(1)));
    let ev = RunEvent {
        t_ms: 0,
        step: 1,
        kind: "press",
        detail: "Enter".into(),
        ok: None,
        actual: None,
    };
    let passed = run_report(&RunResult::Passed, &vec![ev.clone()]);
    assert_eq!(passed.get("ok"), Some(&Json::boolean(true)));
    assert!(passed.get("failed_step").is_none());
    let f = StepFailure {
        step: 2,
        kind: "assert",
        cond: "x=1".into(),
        path: "x".into(),
        reason: FailReason::NoState,
    };
    let failed = run_report(&RunResult::Failed(f), &vec![ev]);
    assert_eq!(failed.get("failed_step"), Some(&Json::integer(2)));
    assert_eq!(
        failed.get("steps"),
        Some(&Json::array(vec![obj(vec![
            ("t_ms", Json::integer(0)),
            ("step", Json::integer(1)),
            ("kind", Json::string("press")),
            ("detail", Json::string("Enter")),
        ])]))
    );
    assert_eq!(
        watch_line(7, Json::null()),
        obj(vec![("t_ms", Json::integer(7)), ("state", Json::null())])
    );
}

#[test]
fn a_check_exits_zero_when_it_holds_and_one_when_not() {
    assert_eq!(panedrive::cli::verdict_code(true), 0);
    assert_eq!(panedrive::cli::verdict_code(false), 1);
}

#[test]
fn an_assert_fails_when_no_state_could_be_read() {
    let c = panedrive::Condition::parse("count=2").unwrap();
    let state = panedrive::Json::object(vec![("count".to_string(), panedrive::Json::integer(2))]);
    assert!(panedrive::cli::assert_verdict(&c, &Some(state)));
    assert!(!panedrive::cli::assert_verdict(&c, &None));
}
