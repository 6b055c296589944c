use panedrive::json::duplicate;
use panedrive::{screen_state, Condition, Json, WaitOutcome, WaitPoll, WaitStep, WatchPoll};

fn obj(entries: Vec<(&str, Json)>) -> Json {
    Json::object(entries.into_iter().map(|(k, v)| (k.to_string(), v)).collect())
}

/// Poll `probe` on a virtual clock until the wait decides, as the command-line
/// program does on a real one. Returns the outcome and how many reads it took.
fn wait_until(
    cond: &Condition,
    timeout_ms: u64,
    interval_ms: u64,
    mut probe: impl FnMut() -> Option<Json>,
) -> (WaitOutcome, usize) {
    let w = WaitPoll::new(0, timeout_ms, interval_ms);
    let mut now = 0u64;
    let mut reads = 0;
    loop {
        let state = probe();
        reads += 1;
        match w.next(cond, &state, now) {
            WaitStep::Done(outcome) => return (outcome, reads),
            WaitStep::Sleep(ms) => now += ms.max(1),
        }
    }
}

#[test]
fn screen_state_exposes_the_text_and_its_lines() {
    let v = screen_state("Loading...\nReady");
    assert_eq!(v.get("screen"), Some(&Json::string("Loading...\nReady")));
    let lines = v.get("lines").unwrap();
    assert_eq!(
        *lines,
        Json::array(vec![Json::string("Loading..."), Json::string("Ready")])
    );
    assert!(Condition::parse("screen~=Ready").unwrap().eval(&v));
    assert!(Condition::parse("lines.1=Ready").unwrap().eval(&v));
}

#[test]
fn screen_state_splits_lines_like_str_lines() {
    let v = screen_state("a\r\nb\n\nc\n");
    assert_eq!(
        *v.get("lines").unwrap(),
        Json::array(vec![
            Json::string("a"),
            Json::string("b"),
            Json::string(""),
            Json::string("c"),
        ])
    );
    assert_eq!(*screen_state("").get("lines").unwrap(), Json::array(vec![]));
}

#[test]
fn satisfied_on_first_probe_does_not_wait() {
    let cond = Condition::parse("ready=true").unwrap();
    let (out, reads) = wait_until(&cond, 5000, 10, || Some(obj(vec![("ready", Json::boolean(true))])));
    assert!(out.is_satisfied());
    assert_eq!(out, WaitOutcome::Satisfied(0));
    assert_eq!(reads, 1);
}

#[test]
fn becomes_satisfied_after_a_few_probes() {
    let mut n = 0;
    let cond = Condition::parse("ready=true").unwrap();
    let (out, reads) = wait_until(&cond, 5000, 1, || {
        let i = n;
        n += 1;
        Some(obj(vec![("ready", Json::boolean(i >= 3))]))
    });
    assert!(out.is_satisfied());
    assert!(reads >= 4, "should have polled until ready");
    assert_eq!(out, WaitOutcome::Satisfied(3));
}

#[test]
fn times_out_when_never_satisfied() {
    let cond = Condition::parse("ready=true").unwrap();
    let (out, reads) = wait_until(&cond, 5, 1, || Some(obj(vec![("ready", Json::boolean(false))])));
    assert_eq!(out, WaitOutcome::TimedOut);
    assert_eq!(reads, 6);
}

#[test]
fn is_satisfied_distinguishes_the_two_outcomes() {
    assert!(WaitOutcome::Satisfied(1).is_satisfied());
    assert!(!WaitOutcome::TimedOut.is_satisfied());
}

#[test]
fn missing_state_is_treated_as_not_ready_then_times_out() {
    let cond = Condition::parse("ready").unwrap();
    let (out, _) = wait_until(&cond, 5, 1, || None);
    assert_eq!(out, WaitOutcome::TimedOut);
}

/// Sample on a virtual clock, collecting what the watch reports.
fn watch(
    duration_ms: u64,
    interval_ms: u64,
    distinct: bool,
    mut probe: impl FnMut() -> Option<Json>,
) -> (Vec<(u64, Json)>, usize) {
    let mut w = WatchPoll::new(0, duration_ms, interval_ms, distinct);
    let mut now = 0u64;
    let mut out = Vec::new();
    loop {
        let step = w.observe(now, probe());
        if let Some(e) = step.emit {
            out.push(e);
        }
        match step.sleep_ms {
            Some(ms) => now += ms.max(1),
            None => return (out, w.count()),
        }
    }
}

#[test]
fn watch_distinct_records_only_transitions() {
    let seq = [0, 0, 1, 1, 2];
    let mut n = 0usize;
    let (emitted, count) = watch(20, 1, true, || {
        let i = n.min(seq.len() - 1);
        n += 1;
        Some(obj(vec![("c", Json::integer(seq[i]))]))
    });
    let cs: Vec<Json> = emitted.iter().map(|(_, v)| duplicate(v.get("c").unwrap())).collect();
    assert_eq!(cs, vec![Json::integer(0), Json::integer(1), Json::integer(2)]);
    assert_eq!(count, 3);
    assert_eq!(emitted.iter().map(|(t, _)| *t).collect::<Vec<_>>(), vec![0, 2, 4]);
}

#[test]
fn watch_non_distinct_emits_every_sample() {
    let (emitted, count) = watch(10, 2, false, || Some(obj(vec![("x", Json::integer(1))])));
    assert_eq!(count, 6);
    assert_eq!(count, emitted.len());
}

#[test]
fn watch_skips_unreadable_samples() {
    let mut n = 0;
    let (emitted, count) = watch(3, 1, false, || {
        n += 1;
        if n % 2 == 0 {
            None
        } else {
            Some(Json::null())
        }
    });
    assert_eq!(count, 2);
    assert_eq!(emitted.len(), 2);
}
