use panedrive::{
    parse_script, FailReason, Json, Key, Observed, PaneBackend, RunAction, RunEvent, RunOptions,
    RunReply, RunResult, ScriptRun, Step, StepFailure,
};

fn obj(entries: Vec<(&str, Json)>) -> Json {
    Json::object(entries.into_iter().map(|(k, v)| (k.to_string(), v)).collect())
}

/// Records the keys and pastes it was asked for; returns a scripted screen.
struct MockBackend {
    sent: Vec<Key>,
    pasted: Vec<String>,
    screen: String,
    broken: bool,
}

impl PaneBackend for MockBackend {
    fn send_keys(&mut self, keys: &[Key]) -> Result<(), String> {
        if self.broken {
            return Err("boom".to_string());
        }
        self.sent.extend_from_slice(keys);
        Ok(())
    }
    fn capture(&mut self) -> Result<String, String> {
        Ok(self.screen.clone())
    }
    fn paste_text(&mut self, text: &str) -> Result<(), String> {
        self.pasted.push(text.to_string());
        Ok(())
    }
}

fn mock() -> MockBackend {
    MockBackend {
        sent: Vec::new(),
        pasted: Vec::new(),
        screen: "SCREEN".to_string(),
        broken: false,
    }
}

/// What a driven run left behind.
struct Outcome {
    result: Result<RunResult, String>,
    captured: Vec<String>,
    events: Vec<RunEvent>,
    sleeps: Vec<u128>,
}

/// Drive a run the way a live driver does, on a virtual clock: probe through
/// `probe`, look environment variables up in `env`.
fn drive(
    steps: &[Step],
    backend: &mut MockBackend,
    opts: &RunOptions,
    mut probe: impl FnMut() -> Option<Json>,
    env: &[(&str, &str)],
) -> Outcome {
    let mut run = ScriptRun::new(steps.to_vec(), opts);
    let mut now: u64 = 0;
    let mut reply = RunReply::Start;
    let mut captured = Vec::new();
    let mut events = Vec::new();
    let mut sleeps = Vec::new();
    loop {
        reply = match run.resume(now, reply) {
            RunAction::Finish(result) => {
                return Outcome {
                    result,
                    captured,
                    events,
                    sleeps,
                }
            }
            RunAction::Probe => RunReply::State(probe()),
            RunAction::SendKeys(keys) => RunReply::Done(backend.send_keys(&keys)),
            RunAction::Paste(text) => RunReply::Done(backend.paste_text(&text)),
            RunAction::Capture => RunReply::Screen(backend.capture()),
            RunAction::ReadEnv(var) => RunReply::Env(
                env.iter()
                    .find(|(k, _)| *k == var)
                    .map(|(_, v)| v.to_string()),
            ),
            RunAction::Sleep(ms) => {
                sleeps.push(ms);
                now += ms.max(1) as u64;
                RunReply::Slept
            }
            RunAction::Emit(screen) => {
                captured.push(screen);
                RunReply::Ack
            }
            RunAction::Event(e) => {
                events.push(e);
                RunReply::Ack
            }
        };
    }
}

fn ready(b: bool) -> Json {
    obj(vec![("ready", Json::boolean(b))])
}

#[test]
fn run_passes_when_every_step_holds() {
    let steps = parse_script("press a\ntype hi\nassert ready=true\ncapture").unwrap();
    let mut backend = mock();
    let out = drive(&steps, &mut backend, &RunOptions::new(), || Some(ready(true)), &[]);
    assert_eq!(out.result.unwrap(), RunResult::Passed);
    assert_eq!(backend.sent, vec![Key::Char('a'), Key::Char('h'), Key::Char('i')]);
    assert_eq!(out.captured, vec!["SCREEN".to_string()]);
}

#[test]
fn run_types_a_secret_from_env_and_can_paste_it() {
    let env = [("PANEDRIVE_TEST_SECRET", "s3cr3t")];
    let mut keyed = mock();
    let steps = parse_script("type --from-env PANEDRIVE_TEST_SECRET").unwrap();
    drive(&steps, &mut keyed, &RunOptions::new(), || None, &env).result.unwrap();
    assert_eq!(keyed.sent, "s3cr3t".chars().map(Key::Char).collect::<Vec<_>>());
    assert!(keyed.pasted.is_empty());

    let mut pasted = mock();
    let steps = parse_script("type --paste --from-env PANEDRIVE_TEST_SECRET").unwrap();
    drive(&steps, &mut pasted, &RunOptions::new(), || None, &env).result.unwrap();
    assert_eq!(pasted.pasted, vec!["s3cr3t".to_string()]);
    assert!(pasted.sent.is_empty());
}

#[test]
fn run_errors_when_the_secret_env_var_is_unset() {
    let steps = parse_script("type --from-env PANEDRIVE_DEFINITELY_UNSET").unwrap();
    let out = drive(&steps, &mut mock(), &RunOptions::new(), || None, &[]);
    assert_eq!(
        out.result.unwrap_err(),
        "step 1: environment variable PANEDRIVE_DEFINITELY_UNSET is not set"
    );
}

#[test]
fn settle_waits_for_the_seam_to_change_before_the_next_step() {
    let make_probe = || {
        let mut n = 0;
        move || {
            let i = n;
            n += 1;
            Some(obj(vec![("v", Json::integer(if i < 3 { 0 } else { 1 }))]))
        }
    };
    let steps = parse_script("press a\nassert v=1").unwrap();
    let out = drive(&steps, &mut mock(), &RunOptions::new(), make_probe(), &[]);
    assert!(matches!(out.result.unwrap(), RunResult::Failed(_)), "no settle should race");

    let out = drive(
        &steps,
        &mut mock(),
        &RunOptions::new().with_settle(1000),
        make_probe(),
        &[],
    );
    assert_eq!(out.result.unwrap(), RunResult::Passed, "settle should absorb the async gap");
    assert_eq!(out.sleeps, vec![20, 20]);
}

#[test]
fn settle_gives_up_after_its_timeout() {
    let steps = parse_script("press a\nassert v=1").unwrap();
    let out = drive(
        &steps,
        &mut mock(),
        &RunOptions::new().with_settle(100),
        || Some(obj(vec![("v", Json::integer(0))])),
        &[],
    );
    assert!(matches!(out.result.unwrap(), RunResult::Failed(_)));
    assert_eq!(out.sleeps.len(), 5);
}

#[test]
fn run_fails_on_assert_mismatch() {
    let steps = parse_script("assert ready=true").unwrap();
    let out = drive(&steps, &mut mock(), &RunOptions::new(), || Some(ready(false)), &[]);
    assert!(matches!(out.result.unwrap(), RunResult::Failed(_)));
}

#[test]
fn failed_assert_carries_the_observed_value() {
    let steps = parse_script("assert count=2").unwrap();
    let out = drive(
        &steps,
        &mut mock(),
        &RunOptions::new(),
        || Some(obj(vec![("count", Json::integer(1))])),
        &[],
    );
    let RunResult::Failed(f) = out.result.unwrap() else {
        panic!("expected a failure");
    };
    assert_eq!(f.step, 1);
    assert_eq!(f.kind, "assert");
    assert_eq!(f.cond, "count=2");
    assert_eq!(
        f.reason,
        FailReason::Unmet {
            observed: Observed::Scalar("1".into())
        }
    );
    assert!(
        f.human().contains("count=2 did not hold (count was 1)"),
        "{}",
        f.human()
    );
    assert_eq!(f.to_json().get("actual"), Some(&Json::string("1")));
}

#[test]
fn recording_emits_one_event_per_step_with_outcomes() {
    let steps = parse_script("press Down\nassert count=1").unwrap();
    let out = drive(
        &steps,
        &mut mock(),
        &RunOptions::new(),
        || Some(obj(vec![("count", Json::integer(1))])),
        &[],
    );
    assert_eq!(out.result.unwrap(), RunResult::Passed);
    let events = &out.events;
    assert_eq!(events.len(), 2);
    assert_eq!(events[0].kind, "press");
    assert_eq!(events[0].detail, "Down");
    assert_eq!(events[1].kind, "assert");
    assert_eq!(events[1].ok, Some(true));
    assert_eq!(events[1].actual.as_deref(), Some("1"));
}

#[test]
fn recording_never_logs_a_secret_value() {
    let steps = parse_script("type --from-env PANEDRIVE_TEST_SECRET2").unwrap();
    let out = drive(
        &steps,
        &mut mock(),
        &RunOptions::new(),
        || None,
        &[("PANEDRIVE_TEST_SECRET2", "hunter2")],
    );
    out.result.unwrap();
    let events = &out.events;
    assert_eq!(events[0].kind, "type");
    assert_eq!(events[0].detail, "--from-env PANEDRIVE_TEST_SECRET2");
    assert!(!events[0].detail.contains("hunter2"));
}

#[test]
fn run_fails_on_assert_without_state() {
    let steps = parse_script("assert ready=true").unwrap();
    let out = drive(&steps, &mut mock(), &RunOptions::new(), || None, &[]);
    assert!(matches!(
        out.result.unwrap(),
        RunResult::Failed(f) if matches!(f.reason, FailReason::NoState)
    ));
}

#[test]
fn step_failure_serializes_and_explains_each_reason() {
    let unmet = StepFailure {
        step: 2,
        kind: "assert",
        cond: "count=2".into(),
        path: "count".into(),
        reason: FailReason::Unmet {
            observed: Observed::Scalar("1".into()),
        },
    };
    assert_eq!(unmet.to_json().get("actual"), Some(&Json::string("1")));
    assert!(unmet
        .human()
        .contains("step 2: assert count=2 did not hold (count was 1)"));

    let no_state = StepFailure {
        step: 1,
        kind: "assert",
        cond: "x=1".into(),
        path: "x".into(),
        reason: FailReason::NoState,
    };
    assert_eq!(
        no_state.to_json().get("error"),
        Some(&Json::string("no readable state"))
    );
    assert!(no_state.human().contains("has no readable state"));

    let timed_out = StepFailure {
        step: 3,
        kind: "wait-until",
        cond: "y=1".into(),
        path: "y".into(),
        reason: FailReason::TimedOut {
            timeout_ms: 500,
            observed: Observed::Missing,
        },
    };
    let j = timed_out.to_json();
    assert_eq!(j.get("timeout_ms"), Some(&Json::integer(500)));
    assert_eq!(j.get("actual"), Some(&Json::null()));
    assert!(timed_out.human().contains("timed out after 500 ms"));
}

#[test]
fn run_event_json_omits_absent_ok_and_actual() {
    let assertion = RunEvent {
        t_ms: 5,
        step: 1,
        kind: "assert",
        detail: "count=1".into(),
        ok: Some(true),
        actual: Some("1".into()),
    };
    let j = assertion.to_json();
    assert_eq!(j.get("ok"), Some(&Json::boolean(true)));
    assert_eq!(j.get("actual"), Some(&Json::string("1")));

    let press = RunEvent {
        t_ms: 0,
        step: 2,
        kind: "press",
        detail: "Enter".into(),
        ok: None,
        actual: None,
    };
    let j2 = press.to_json();
    assert!(j2.get("ok").is_none());
    assert!(j2.get("actual").is_none());
}

#[test]
fn recording_reports_timeout_with_last_observed() {
    let steps = parse_script("wait-until ready=true --timeout-ms 5 --interval-ms 1").unwrap();
    let out = drive(&steps, &mut mock(), &RunOptions::new(), || Some(ready(false)), &[]);
    let RunResult::Failed(f) = out.result.unwrap() else {
        panic!("expected a timeout failure");
    };
    assert!(matches!(f.reason, FailReason::TimedOut { .. }));
    let last = out.events.last().unwrap();
    assert_eq!(last.kind, "wait-until");
    assert_eq!(last.ok, Some(false));
    assert_eq!(last.actual.as_deref(), Some("false"));
}

#[test]
fn run_fails_when_wait_until_times_out() {
    let steps = parse_script("wait-until ready=true --timeout-ms 5 --interval-ms 1").unwrap();
    let out = drive(&steps, &mut mock(), &RunOptions::new(), || Some(ready(false)), &[]);
    assert!(matches!(
        out.result.unwrap(),
        RunResult::Failed(f) if matches!(f.reason, FailReason::TimedOut { timeout_ms: 5, .. })
    ));
    assert_eq!(out.sleeps, vec![1, 1, 1, 1, 1]);
}

#[test]
fn run_stops_at_the_first_failure() {
    let steps = parse_script("press a\nassert ready=true\ncapture").unwrap();
    let mut backend = mock();
    let out = drive(&steps, &mut backend, &RunOptions::new(), || Some(ready(false)), &[]);
    assert!(matches!(out.result.unwrap(), RunResult::Failed(_)));
    assert!(out.captured.is_empty(), "capture after the failure must not run");
}

#[test]
fn run_surfaces_a_backend_error_as_err() {
    let steps = parse_script("press a").unwrap();
    let mut broken = mock();
    broken.broken = true;
    let out = drive(&steps, &mut broken, &RunOptions::new(), || None, &[]);
    assert_eq!(out.result.unwrap_err(), "boom");
}

#[test]
fn a_finished_run_stays_finished() {
    let steps = parse_script("capture").unwrap();
    let mut run = ScriptRun::new(steps, &RunOptions::new());
    assert!(matches!(run.resume(0, RunReply::Start), RunAction::Capture));
    assert!(matches!(
        run.resume(0, RunReply::Screen(Ok(String::new()))),
        RunAction::Emit(_)
    ));
    assert!(matches!(run.resume(0, RunReply::Ack), RunAction::Event(_)));
    assert!(matches!(
        run.resume(0, RunReply::Ack),
        RunAction::Finish(Ok(RunResult::Passed))
    ));
    assert!(run.is_done());
    assert!(matches!(run.resume(9, RunReply::Ack), RunAction::Finish(Err(_))));
    assert!(run.is_done());
}

#[test]
fn a_reply_that_does_not_answer_is_an_error() {
    let steps = parse_script("capture").unwrap();
    let mut run = ScriptRun::new(steps, &RunOptions::new());
    run.resume(0, RunReply::Start);
    assert!(matches!(run.resume(0, RunReply::Ack), RunAction::Finish(Err(_))));
}

#[test]
fn sleep_steps_pause_and_report_their_length() {
    let steps = parse_script("sleep 2s").unwrap();
    let out = drive(&steps, &mut mock(), &RunOptions::new(), || None, &[]);
    assert_eq!(out.result.unwrap(), RunResult::Passed);
    assert_eq!(out.sleeps, vec![2000]);
    assert_eq!(out.events[0].detail, "2000 ms");
    assert_eq!(out.events[0].t_ms, 2000);
}

#[test]
fn a_wait_that_already_holds_does_not_sleep() {
    let steps = parse_script("wait-until ready=true --timeout-ms 5000 --interval-ms 10").unwrap();
    let out = drive(&steps, &mut mock(), &RunOptions::new(), || Some(ready(true)), &[]);
    assert_eq!(out.result.unwrap(), RunResult::Passed);
    assert!(out.sleeps.is_empty());
    assert_eq!(out.events[0].ok, Some(true));
    assert_eq!(out.events[0].actual.as_deref(), Some("true"));
}

#[test]
fn every_step_runs_before_a_pass() {
    let steps = parse_script("press a\nsleep 5\ncapture\nassert ready=true").unwrap();
    let out = drive(&steps, &mut mock(), &RunOptions::new(), || Some(ready(true)), &[]);
    assert_eq!(out.result.unwrap(), RunResult::Passed);
    let kinds: Vec<&str> = out.events.iter().map(|e| e.kind).collect();
    assert_eq!(kinds, vec!["press", "sleep", "capture", "assert"]);
    let numbers: Vec<usize> = out.events.iter().map(|e| e.step).collect();
    assert_eq!(numbers, vec![1, 2, 3, 4]);
}
