//! The script runner as a state machine.
//!
//! A run alternates decisions with outside work (pressing keys into a pane,
//! reading the seam, sleeping). [`ScriptRun`] holds the decisions: each call
//! of [`ScriptRun::resume`] takes the reply to the previous action and the
//! time since the run started, and returns the next action. The driver that
//! owns a real pane performs the actions; an in-process driver answers them
//! from a model.
//!
//! Exit contract: a failing `assert` or a timed-out `wait-until` ends the run
//! with [`RunResult::Failed`]; a backend or usage error ends it with `Err`;
//! otherwise the run passes.
use crate::condition::{
    cond_path, holds, observe, spec_text, CondV, Condition, Observed, ObservedV,
};
use crate::json::{json_equal, Json, JsonV};
use crate::key::Key;
use crate::outcome::{
    keys_detail, keys_text, EventV, FailReason, FailureV, ReasonV, ResultV, RunEvent, RunResult,
    StepFailure,
};
use crate::script::{step_views, SourceV, Step, StepV, TypeSource};
use crate::text::{dec, push_dec, push_str};
use vstd::prelude::*;

verus! {

/// How long a settle poll waits between seam reads, in milliseconds.
pub const SETTLE_INTERVAL_MS: u64 = 20u64;

/// Options that control how a script runs.
#[derive(Debug, Clone, Copy, PartialEq, Eq, Default)]
pub struct RunOptions {
    /// When `Some(ms)`, each key/`type` step waits up to `ms` milliseconds for
    /// the seam to change before the next step runs, so a following `assert`
    /// does not race a stale seam. `None` disables settling.
    pub settle_ms: Option<u64>,
}

impl RunOptions {
    /// Default options: no settling.
    pub fn new() -> (r: Self)
        ensures
            r.settle_ms is None,
    {
        RunOptions { settle_ms: None }
    }

    /// Enable settling, waiting up to `timeout_ms` after each mutating step.
    pub fn with_settle(self, timeout_ms: u64) -> (r: Self)
        ensures
            r.settle_ms == Some(timeout_ms),
    {
        RunOptions { settle_ms: Some(timeout_ms) }
    }
}

/// Where a run stands: which reply it awaits.
#[derive(Debug, Clone, Copy, PartialEq, Eq, Structural)]
pub enum Phase {
    /// Not started; any reply starts the first step.
    Idle,
    /// Awaiting an environment variable's value.
    Env,
    /// Awaiting the seam read taken before a key or type step.
    Before,
    /// Awaiting the outcome of delivering keys or text.
    Send,
    /// Awaiting a settle poll's seam read.
    SettleProbe,
    /// Awaiting the end of a settle pause.
    SettleSleep,
    /// Awaiting the acknowledgement of a step's event.
    EventAck,
    /// Awaiting the end of a `sleep` step.
    Sleep,
    /// Awaiting a captured screen.
    Capture,
    /// Awaiting the acknowledgement of emitted screen text.
    EmitAck,
    /// Awaiting the seam read of an `assert`.
    AssertProbe,
    /// Awaiting a `wait-until` poll's seam read.
    WaitProbe,
    /// Awaiting the end of a `wait-until` pause.
    WaitSleep,
    /// Awaiting the last seam read of a `wait-until`.
    WaitFinal,
    /// The run has ended.
    Done,
}

/// The next thing a driver must do for a run.
#[derive(Debug)]
pub enum RunAction {
    /// Read the state seam; reply with [`RunReply::State`].
    Probe,
    /// Send these keys; reply with [`RunReply::Done`].
    SendKeys(Vec<Key>),
    /// Deliver this text as a block; reply with [`RunReply::Done`].
    Paste(String),
    /// Capture the pane's text; reply with [`RunReply::Screen`].
    Capture,
    /// Read this environment variable; reply with [`RunReply::Env`].
    ReadEnv(String),
    /// Pause this many milliseconds; reply with [`RunReply::Slept`].
    Sleep(u128),
    /// Hand this captured text to the caller; reply with [`RunReply::Ack`].
    Emit(String),
    /// Report this completed step; reply with [`RunReply::Ack`].
    Event(RunEvent),
    /// The run is over with this outcome.
    Finish(Result<RunResult, String>),
}

/// A driver's reply to the previous [`RunAction`].
#[derive(Debug)]
pub enum RunReply {
    /// The first call, before any action.
    Start,
    /// The seam, or `None` when it is not readable.
    State(Option<Json>),
    /// Keys or text were delivered, or the backend failed.
    Done(Result<(), String>),
    /// The captured screen, or the backend failure.
    Screen(Result<String, String>),
    /// The environment variable's value, if set.
    Env(Option<String>),
    /// The pause is over.
    Slept,
    /// Emitted text or an event was taken.
    Ack,
}

/// The mathematical form of a [`RunAction`].
pub enum ActionV {
    Probe,
    SendKeys(Seq<Key>),
    Paste(Seq<char>),
    Capture,
    ReadEnv(Seq<char>),
    Sleep(nat),
    Emit(Seq<char>),
    Event(EventV),
    Finish(Result<ResultV, Seq<char>>),
}

/// The mathematical form of a [`RunReply`].
pub enum ReplyV {
    Start,
    State(Option<JsonV>),
    Done(Result<(), Seq<char>>),
    Screen(Result<Seq<char>, Seq<char>>),
    Env(Option<Seq<char>>),
    Slept,
    Ack,
}

impl View for RunAction {
    type V = ActionV;

    open spec fn view(&self) -> ActionV {
        match self {
            RunAction::Probe => ActionV::Probe,
            RunAction::SendKeys(k) => ActionV::SendKeys(k@),
            RunAction::Paste(t) => ActionV::Paste(t@),
            RunAction::Capture => ActionV::Capture,
            RunAction::ReadEnv(v) => ActionV::ReadEnv(v@),
            RunAction::Sleep(ms) => ActionV::Sleep(*ms as nat),
            RunAction::Emit(t) => ActionV::Emit(t@),
            RunAction::Event(e) => ActionV::Event(e@),
            RunAction::Finish(r) => ActionV::Finish(
                match r {
                    Ok(x) => Ok(x@),
                    Err(e) => Err(e@),
                },
            ),
        }
    }
}

impl View for RunReply {
    type V = ReplyV;

    open spec fn view(&self) -> ReplyV {
        match self {
            RunReply::Start => ReplyV::Start,
            RunReply::State(s) => ReplyV::State(
                match s {
                    Some(j) => Some(j@),
                    None => None,
                },
            ),
            RunReply::Done(r) => ReplyV::Done(
                match r {
                    Ok(_) => Ok(()),
                    Err(e) => Err(e@),
                },
            ),
            RunReply::Screen(r) => ReplyV::Screen(
                match r {
                    Ok(t) => Ok(t@),
                    Err(e) => Err(e@),
                },
            ),
            RunReply::Env(v) => ReplyV::Env(
                match v {
                    Some(t) => Some(t@),
                    None => None,
                },
            ),
            RunReply::Slept => ReplyV::Slept,
            RunReply::Ack => ReplyV::Ack,
        }
    }
}

/// A script run in progress.
pub struct ScriptRun {
    steps: Vec<Step>,
    settle_ms: Option<u64>,
    idx: usize,
    phase: Phase,
    text: String,
    before: Option<Json>,
    start: u64,
    ok: bool,
    pending: Option<StepFailure>,
}

/// The mathematical form of a [`ScriptRun`].
pub struct RunV {
    /// The script.
    pub steps: Seq<StepV>,
    /// The settle timeout.
    pub settle: Option<nat>,
    /// The current step (0-based).
    pub idx: nat,
    /// The awaited reply.
    pub phase: Phase,
    /// The text of the current `type` step.
    pub text: Seq<char>,
    /// The seam read before the current key or type step.
    pub before: Option<JsonV>,
    /// When the current wait or settle began.
    pub start: nat,
    /// Whether the current `wait-until` held.
    pub ok: bool,
    /// The failure to report once the current event is taken.
    pub pending: Option<FailureV>,
}

impl View for ScriptRun {
    type V = RunV;

    closed spec fn view(&self) -> RunV {
        RunV {
            steps: step_views(self.steps@),
            settle: match self.settle_ms {
                Some(ms) => Some(ms as nat),
                None => None,
            },
            idx: self.idx as nat,
            phase: self.phase,
            text: self.text@,
            before: match self.before {
                Some(j) => Some(j@),
                None => None,
            },
            start: self.start as nat,
            ok: self.ok,
            pending: match self.pending {
                Some(f) => Some(f@),
                None => None,
            },
        }
    }
}

// ---------------------------------------------------------------------------
// The transition function
// ---------------------------------------------------------------------------

/// The seam a reply carries (`None` for any other reply).
pub open spec fn reply_state(r: ReplyV) -> Option<JsonV> {
    match r {
        ReplyV::State(s) => s,
        _ => None,
    }
}

/// The mathematical form of an optional seam.
pub open spec fn opt_view(o: Option<Json>) -> Option<JsonV> {
    match o {
        Some(j) => Some(j@),
        None => None,
    }
}

/// Message for a reply that does not answer the action.
pub open spec fn protocol_error() -> Seq<char> {
    "the driver's reply does not answer the last action"@
}

/// The key that types `c`.
pub open spec fn char_key(c: char) -> Key {
    Key::Char(c)
}

/// The keys that type `t` one character at a time.
pub open spec fn char_keys(t: Seq<char>) -> Seq<Key> {
    Seq::new(t.len(), |i: int| char_key(t[i]))
}

/// `ms` milliseconds have passed since `start`. A clock at its limit counts
/// every timeout as elapsed.
pub open spec fn elapsed(now: nat, start: nat, ms: nat) -> bool {
    now >= start + ms || now >= u64::MAX
}

/// The run ends with `r`.
pub open spec fn finish(s: RunV, r: Result<ResultV, Seq<char>>) -> (RunV, ActionV) {
    (RunV { phase: Phase::Done, ..s }, ActionV::Finish(r))
}

/// Deliver the current key or type step's input.
pub open spec fn deliver(s: RunV) -> (RunV, ActionV) {
    let s2 = RunV { phase: Phase::Send, ..s };
    match s.steps[s.idx as int] {
        StepV::Press(keys) => (s2, ActionV::SendKeys(keys)),
        StepV::Type { source, paste } => if paste {
            (s2, ActionV::Paste(s.text))
        } else {
            (s2, ActionV::SendKeys(char_keys(s.text)))
        },
        _ => (s2, ActionV::SendKeys(seq![])),
    }
}

/// Once the input is known: read the seam first when settling, else deliver.
pub open spec fn prepare(s: RunV) -> (RunV, ActionV) {
    if s.settle is Some {
        (RunV { phase: Phase::Before, ..s }, ActionV::Probe)
    } else {
        deliver(RunV { before: None, ..s })
    }
}

/// The detail of the current input step's event.
pub open spec fn step_detail(s: RunV) -> Seq<char> {
    match s.steps[s.idx as int] {
        StepV::Press(keys) => keys_text(keys),
        StepV::Type { source, paste } => match source {
            SourceV::Literal(t) => t,
            SourceV::FromEnv(v) => "--from-env "@ + v,
        },
        StepV::Sleep(ms) => dec(ms) + " ms"@,
        _ => Seq::empty(),
    }
}

/// The verb of a step.
pub open spec fn step_kind(st: StepV) -> Seq<char> {
    match st {
        StepV::Press(_) => "press"@,
        StepV::Type { .. } => "type"@,
        StepV::WaitUntil { .. } => "wait-until"@,
        StepV::Assert(_) => "assert"@,
        StepV::Capture => "capture"@,
        StepV::Sleep(_) => "sleep"@,
    }
}

/// Report the current input step as done.
pub open spec fn input_event(s: RunV, now: nat) -> (RunV, ActionV) {
    (
        RunV { phase: Phase::EventAck, pending: None, ..s },
        ActionV::Event(
            EventV {
                t_ms: now,
                step: s.idx + 1,
                kind: step_kind(s.steps[s.idx as int]),
                detail: step_detail(s),
                ok: None,
                actual: None,
            },
        ),
    )
}

/// Begin the step at `s.idx`, or pass the run when none is left.
pub open spec fn begin(s: RunV, now: nat) -> (RunV, ActionV) {
    if s.idx >= s.steps.len() {
        finish(s, Ok(ResultV::Passed))
    } else {
        match s.steps[s.idx as int] {
            StepV::Press(_) => prepare(s),
            StepV::Type { source, paste } => match source {
                SourceV::Literal(t) => prepare(RunV { text: t, ..s }),
                SourceV::FromEnv(v) => (RunV { phase: Phase::Env, ..s }, ActionV::ReadEnv(v)),
            },
            StepV::Sleep(ms) => (RunV { phase: Phase::Sleep, ..s }, ActionV::Sleep(ms)),
            StepV::Capture => (RunV { phase: Phase::Capture, ..s }, ActionV::Capture),
            StepV::Assert(_) => (RunV { phase: Phase::AssertProbe, ..s }, ActionV::Probe),
            StepV::WaitUntil { .. } => (
                RunV { phase: Phase::WaitProbe, start: now, ..s },
                ActionV::Probe,
            ),
        }
    }
}

/// The scalar text of an observation, if any.
pub open spec fn actual_of(o: ObservedV) -> Option<Seq<char>> {
    match o {
        ObservedV::Scalar(t) => Some(t),
        _ => None,
    }
}

/// The condition of a condition step.
pub open spec fn step_cond(st: StepV) -> CondV {
    match st {
        StepV::Assert(c) => c,
        StepV::WaitUntil { cond, .. } => cond,
        _ => CondV::Exists(Seq::empty()),
    }
}

/// The timeout of a `wait-until` step.
pub open spec fn step_timeout(st: StepV) -> nat {
    match st {
        StepV::WaitUntil { timeout, .. } => timeout,
        _ => 0,
    }
}

/// The interval of a `wait-until` step.
pub open spec fn step_interval(st: StepV) -> nat {
    match st {
        StepV::WaitUntil { interval, .. } => interval,
        _ => 0,
    }
}

/// Judge an `assert` against the seam it read.
pub open spec fn judge_assert(s: RunV, now: nat, seam: Option<JsonV>) -> (RunV, ActionV) {
    let c = step_cond(s.steps[s.idx as int]);
    let ok = match seam {
        Some(v) => holds(c, v),
        None => false,
    };
    let obs = match seam {
        Some(v) => observe(v, cond_path(c)),
        None => ObservedV::Missing,
    };
    let failure = FailureV {
        step: s.idx + 1,
        kind: "assert"@,
        cond: spec_text(c),
        path: cond_path(c),
        reason: if seam is Some {
            ReasonV::Unmet(obs)
        } else {
            ReasonV::NoState
        },
    };
    (
        RunV {
            phase: Phase::EventAck,
            pending: if ok {
                None
            } else {
                Some(failure)
            },
            ..s
        },
        ActionV::Event(
            EventV {
                t_ms: now,
                step: s.idx + 1,
                kind: "assert"@,
                detail: spec_text(c),
                ok: Some(ok),
                actual: actual_of(obs),
            },
        ),
    )
}

/// Report a `wait-until` with the seam of its last read.
pub open spec fn judge_wait(s: RunV, now: nat, seam: Option<JsonV>) -> (RunV, ActionV) {
    let st = s.steps[s.idx as int];
    let c = step_cond(st);
    let obs = match seam {
        Some(v) => observe(v, cond_path(c)),
        None => ObservedV::Missing,
    };
    let failure = FailureV {
        step: s.idx + 1,
        kind: "wait-until"@,
        cond: spec_text(c),
        path: cond_path(c),
        reason: ReasonV::TimedOut(step_timeout(st), obs),
    };
    (
        RunV {
            phase: Phase::EventAck,
            pending: if s.ok {
                None
            } else {
                Some(failure)
            },
            ..s
        },
        ActionV::Event(
            EventV {
                t_ms: now,
                step: s.idx + 1,
                kind: "wait-until"@,
                detail: spec_text(c),
                ok: Some(s.ok),
                actual: actual_of(obs),
            },
        ),
    )
}

/// The message for an unset environment variable.
pub open spec fn env_error(step: nat, var: Seq<char>) -> Seq<char> {
    "step "@ + dec(step) + ": environment variable "@ + var + " is not set"@
}

/// The variable of a `type --from-env` step.
pub open spec fn step_var(st: StepV) -> Seq<char> {
    match st {
        StepV::Type { source: SourceV::FromEnv(v), .. } => v,
        _ => Seq::empty(),
    }
}

/// One transition: the state after `reply` at time `now`, and the next action.
pub open spec fn next(s: RunV, now: nat, reply: ReplyV) -> (RunV, ActionV) {
    match s.phase {
        Phase::Idle => begin(s, now),
        Phase::Env => match reply {
            ReplyV::Env(Some(t)) => prepare(RunV { text: t, ..s }),
            _ => finish(s, Err(env_error(s.idx + 1, step_var(s.steps[s.idx as int])))),
        },
        Phase::Before => deliver(RunV { before: reply_state(reply), ..s }),
        Phase::Send => match reply {
            ReplyV::Done(Ok(_)) => if s.settle is Some {
                (RunV { phase: Phase::SettleProbe, start: now, ..s }, ActionV::Probe)
            } else {
                input_event(s, now)
            },
            ReplyV::Done(Err(e)) => finish(s, Err(e)),
            _ => finish(s, Err(protocol_error())),
        },
        Phase::SettleProbe => if reply_state(reply) != s.before || elapsed(
            now,
            s.start,
            s.settle->0,
        ) {
            input_event(s, now)
        } else {
            (RunV { phase: Phase::SettleSleep, ..s }, ActionV::Sleep(SETTLE_INTERVAL_MS as nat))
        },
        Phase::SettleSleep => (RunV { phase: Phase::SettleProbe, ..s }, ActionV::Probe),
        Phase::EventAck => match s.pending {
            Some(f) => finish(RunV { pending: None, ..s }, Ok(ResultV::Failed(f))),
            None => begin(RunV { idx: s.idx + 1, ..s }, now),
        },
        Phase::Sleep => input_event(s, now),
        Phase::Capture => match reply {
            ReplyV::Screen(Ok(t)) => (RunV { phase: Phase::EmitAck, ..s }, ActionV::Emit(t)),
            ReplyV::Screen(Err(e)) => finish(s, Err(e)),
            _ => finish(s, Err(protocol_error())),
        },
        Phase::EmitAck => input_event(s, now),
        Phase::AssertProbe => judge_assert(s, now, reply_state(reply)),
        Phase::WaitProbe => {
            let st = s.steps[s.idx as int];
            let seam = reply_state(reply);
            if seam is Some && holds(step_cond(st), seam->0) {
                (RunV { phase: Phase::WaitFinal, ok: true, ..s }, ActionV::Probe)
            } else if elapsed(now, s.start, step_timeout(st)) {
                (RunV { phase: Phase::WaitFinal, ok: false, ..s }, ActionV::Probe)
            } else {
                (RunV { phase: Phase::WaitSleep, ..s }, ActionV::Sleep(step_interval(st)))
            }
        },
        Phase::WaitSleep => (RunV { phase: Phase::WaitProbe, ..s }, ActionV::Probe),
        Phase::WaitFinal => judge_wait(s, now, reply_state(reply)),
        Phase::Done => (s, ActionV::Finish(Err("the run has finished"@))),
    }
}

/// The state a run starts in.
pub open spec fn initial(steps: Seq<StepV>, settle: Option<nat>) -> RunV {
    RunV {
        steps,
        settle,
        idx: 0,
        phase: Phase::Idle,
        text: Seq::empty(),
        before: None,
        start: 0,
        ok: false,
        pending: None,
    }
}

/// Whether a run may await `p` while standing at step `st`.
pub open spec fn phase_fits(p: Phase, st: StepV) -> bool {
    match p {
        Phase::Env => st matches StepV::Type { source: SourceV::FromEnv(_), .. },
        Phase::Before | Phase::Send | Phase::SettleProbe | Phase::SettleSleep => st is Press
            || st is Type,
        Phase::Sleep => st is Sleep,
        Phase::Capture | Phase::EmitAck => st is Capture,
        Phase::AssertProbe => st is Assert,
        Phase::WaitProbe | Phase::WaitSleep | Phase::WaitFinal => st is WaitUntil,
        _ => true,
    }
}

/// Where a run may stand between calls: at an existing step whose kind
/// matches the awaited reply, settling only when settling is on.
pub open spec fn well_formed(s: RunV) -> bool {
    &&& s.phase != Phase::Idle ==> s.phase != Phase::Done ==> s.idx < s.steps.len()
    &&& s.phase != Phase::Idle ==> s.phase != Phase::Done ==> phase_fits(
        s.phase,
        s.steps[s.idx as int],
    )
    &&& s.phase == Phase::Idle ==> s.idx == 0
    &&& (s.phase == Phase::SettleProbe || s.phase == Phase::SettleSleep) ==> s.settle is Some
}

/// Every transition keeps a run well-formed: it never stands past its last
/// step, and the reply it awaits always fits the step it stands at.
pub proof fn lemma_next_well_formed(s: RunV, now: nat, reply: ReplyV)
    requires
        well_formed(s),
    ensures
        well_formed(next(s, now, reply).0),
{
}
/// A finished run stays finished: whatever the reply, its state does not
/// change and it only repeats that it is over.
pub proof fn lemma_finished_run_stays_finished(s: RunV, now: nat, reply: ReplyV)
    requires
        s.phase == Phase::Done,
    ensures
        next(s, now, reply).0 == s,
        next(s, now, reply).1 is Finish,
{
}

/// What a `type` step's event records: the literal text, or for a secret the
/// variable's name (`--from-env VAR`), never its value.
pub open spec fn source_detail(src: SourceV) -> Seq<char> {
    match src {
        SourceV::Literal(t) => t,
        SourceV::FromEnv(v) => "--from-env "@ + v,
    }
}

/// Every event reports the step the run stands at, and the event of a `type`
/// step records its source as written in the script: a secret read from the
/// environment is never logged, whatever value the environment held.
pub proof fn lemma_type_event_never_logs_a_secret(s: RunV, now: nat, reply: ReplyV)
    requires
        well_formed(s),
        next(s, now, reply).1 is Event,
    ensures
        ({
            let e = next(s, now, reply).1->Event_0;
            &&& e.step == s.idx + 1
            &&& (s.steps[s.idx as int] matches StepV::Type { source, .. } ==> e.detail
                == source_detail(source))
        }),
{
}

/// Two run states that differ at most in the text of the current `type` step,
/// which is where a secret read from the environment is held.
pub open spec fn twin_states(a: RunV, b: RunV) -> bool {
    RunV { text: a.text, ..b } == a
}

/// Two replies that are the same, except that each may carry its own value
/// for an environment variable that is set.
pub open spec fn twin_replies(a: ReplyV, b: ReplyV) -> bool {
    a == b || (a matches ReplyV::Env(Some(_)) && b matches ReplyV::Env(Some(_)))
}

/// Two actions that are the same, except for the input they deliver to the
/// pane: every probe, read, pause, emitted capture, event and outcome agrees.
pub open spec fn twin_actions(a: ActionV, b: ActionV) -> bool {
    a == b || (a is SendKeys && b is SendKeys) || (a is Paste && b is Paste)
}

/// The states and actions of a run from `s`, fed the timed replies `input` in
/// order.
pub open spec fn trace(s: RunV, input: Seq<(nat, ReplyV)>) -> (RunV, Seq<ActionV>)
    decreases input.len(),
{
    if input.len() == 0 {
        (s, seq![])
    } else {
        let (t, acts) = trace(s, input.drop_last());
        let (t2, a) = next(t, input.last().0, input.last().1);
        (t2, acts.push(a))
    }
}

/// One transition cannot tell a secret's value apart: from twin states, at the
/// same time, on twin replies, the next states are twins and the actions agree
/// but for the input delivered.
pub proof fn lemma_next_ignores_the_secret(
    s1: RunV,
    s2: RunV,
    now: nat,
    r1: ReplyV,
    r2: ReplyV,
)
    requires
        twin_states(s1, s2),
        twin_replies(r1, r2),
    ensures
        twin_states(next(s1, now, r1).0, next(s2, now, r2).0),
        twin_actions(next(s1, now, r1).1, next(s2, now, r2).1),
{
    assert(s1.phase == s2.phase && s1.idx == s2.idx && s1.steps == s2.steps);
    assert(reply_state(r1) == reply_state(r2));
}

/// A secret never reaches the event track: two runs that differ only in the
/// values their environment gives for `type --from-env` variables, and
/// otherwise see the same replies at the same times, report the same events,
/// read the same variables, and end with the same outcome. Only the input they
/// deliver to the pane may differ.
pub proof fn lemma_secret_never_reaches_the_track(
    s1: RunV,
    s2: RunV,
    in1: Seq<(nat, ReplyV)>,
    in2: Seq<(nat, ReplyV)>,
)
    requires
        twin_states(s1, s2),
        in1.len() == in2.len(),
        forall|k: int|
            0 <= k < in1.len() ==> #[trigger] in1[k].0 == in2[k].0 && twin_replies(
                in1[k].1,
                in2[k].1,
            ),
    ensures
        twin_states(trace(s1, in1).0, trace(s2, in2).0),
        trace(s1, in1).1.len() == in1.len(),
        trace(s2, in2).1.len() == in2.len(),
        forall|k: int|
            0 <= k < in1.len() ==> twin_actions(
                #[trigger] trace(s1, in1).1[k],
                trace(s2, in2).1[k],
            ),
    decreases in1.len(),
{
    if in1.len() > 0 {
        let n = in1.len() - 1;
        let p1 = in1.drop_last();
        let p2 = in2.drop_last();
        assert forall|k: int| 0 <= k < p1.len() implies #[trigger] p1[k].0 == p2[k].0
            && twin_replies(p1[k].1, p2[k].1) by {
            assert(p1[k] == in1[k] && p2[k] == in2[k]);
            assert(in1[k].0 == in2[k].0);
        }
        lemma_secret_never_reaches_the_track(s1, s2, p1, p2);
        let (t1, a1) = trace(s1, p1);
        let (t2, a2) = trace(s2, p2);
        assert(in1[n].0 == in2[n].0);
        lemma_next_ignores_the_secret(t1, t2, in1.last().0, in1.last().1, in2.last().1);
        assert forall|k: int| 0 <= k < in1.len() implies twin_actions(
            #[trigger] trace(s1, in1).1[k],
            trace(s2, in2).1[k],
        ) by {
            if k < n {
                assert(trace(s1, in1).1[k] == a1[k]);
                assert(trace(s2, in2).1[k] == a2[k]);
            }
        }
    }
}

/// The verdict of an `assert` is the condition over the seam it read (no
/// readable seam fails it); its event carries that verdict, and once the event
/// is taken the run fails at this step exactly when the verdict is false.
pub proof fn lemma_assert_verdict(s: RunV, now: nat, reply: ReplyV, later: nat)
    requires
        well_formed(s),
        s.phase == Phase::AssertProbe,
    ensures
        ({
            let verdict = reply_state(reply) matches Some(v) && holds(
                step_cond(s.steps[s.idx as int]),
                v,
            );
            let (s2, a) = next(s, now, reply);
            let after = next(s2, later, ReplyV::Ack).1;
            &&& (a matches ActionV::Event(e) && e.ok == Some(verdict))
            &&& (!verdict <==> (after matches ActionV::Finish(Ok(ResultV::Failed(_)))))
            &&& (after matches ActionV::Finish(Ok(ResultV::Failed(f))) ==> f.step == s.idx + 1
                && f.kind == "assert"@ && f.cond == spec_text(step_cond(s.steps[s.idx as int]))
                && f.reason == match reply_state(reply) {
                Some(v) => ReasonV::Unmet(observe(v, cond_path(step_cond(s.steps[s.idx as int])))),
                None => ReasonV::NoState,
            })
        }),
{
}

/// A `wait-until` whose condition already holds does not sleep: the next
/// action is the final seam read, and its event reports success without
/// failing the run.
pub proof fn lemma_wait_holds_without_sleeping(
    s: RunV,
    now: nat,
    reply: ReplyV,
    later: nat,
    last: ReplyV,
)
    requires
        well_formed(s),
        s.phase == Phase::WaitProbe,
        reply_state(reply) matches Some(v) && holds(step_cond(s.steps[s.idx as int]), v),
    ensures
        next(s, now, reply).1 is Probe,
        ({
            let (s3, a3) = next(next(s, now, reply).0, later, last);
            &&& s3.pending is None
            &&& a3 matches ActionV::Event(e) && e.ok == Some(true)
        }),
{
}

/// A `wait-until` whose condition does not hold once its timeout has elapsed
/// fails the run at this step, reporting the timeout.
pub proof fn lemma_wait_times_out(
    s: RunV,
    now: nat,
    reply: ReplyV,
    later: nat,
    last: ReplyV,
    acked: nat,
)
    requires
        well_formed(s),
        s.phase == Phase::WaitProbe,
        !(reply_state(reply) matches Some(v) && holds(step_cond(s.steps[s.idx as int]), v)),
        elapsed(now, s.start, step_timeout(s.steps[s.idx as int])),
    ensures
        ({
            let s3 = next(next(s, now, reply).0, later, last).0;
            &&& next(s3, acked, ReplyV::Ack).1 matches ActionV::Finish(Ok(ResultV::Failed(f)))
            &&& f.step == s.idx + 1
            &&& f.kind == "wait-until"@
            &&& f.reason matches ReasonV::TimedOut(t, _)
            &&& t == step_timeout(s.steps[s.idx as int])
        }),
{
}

/// With settling on, a key or type step is reported once the seam differs
/// from the read taken before the input, or once the settle time is up; until
/// then the run pauses and reads again.
pub proof fn lemma_settle_waits_for_a_change(s: RunV, now: nat, reply: ReplyV)
    requires
        well_formed(s),
        s.phase == Phase::SettleProbe,
    ensures
        (reply_state(reply) != s.before || elapsed(now, s.start, s.settle->0)) ==> next(
            s,
            now,
            reply,
        ).1 is Event,
        !(reply_state(reply) != s.before || elapsed(now, s.start, s.settle->0)) ==> next(
            s,
            now,
            reply,
        ).1 == ActionV::Sleep(SETTLE_INTERVAL_MS as nat),
{
}

/// A host that fails to deliver input ends the run with its error.
pub proof fn lemma_backend_error_ends_the_run(s: RunV, now: nat, e: Seq<char>)
    requires
        well_formed(s),
        s.phase == Phase::Send,
    ensures
        next(s, now, ReplyV::Done(Err(e))).1 == ActionV::Finish(Err(e)),
        next(s, now, ReplyV::Done(Err(e))).0.phase == Phase::Done,
{
}

/// A run passes only once every step has run.
pub proof fn lemma_pass_only_at_the_end(s: RunV, now: nat, reply: ReplyV)
    requires
        well_formed(s),
        next(s, now, reply).1 == ActionV::Finish(Ok(ResultV::Passed)),
    ensures
        next(s, now, reply).0.idx == s.steps.len(),
{
}
/// Milliseconds left before a wait or settle that began at `start` with
/// limit `ms` gives up.
pub open spec fn time_left(now: nat, start: nat, ms: nat) -> nat {
    if elapsed(now, start, ms) {
        0
    } else {
        (start + ms - now) as nat
    }
}

/// The steps a run has yet to finish (none once it is over).
pub open spec fn steps_left(s: RunV) -> nat {
    if s.phase == Phase::Done {
        0
    } else {
        (s.steps.len() - s.idx + 1) as nat
    }
}

/// How far a phase stands from the end of its step.
pub open spec fn phase_rank(p: Phase) -> nat {
    match p {
        Phase::Idle => 10,
        Phase::Env => 9,
        Phase::Before => 8,
        Phase::Send => 7,
        Phase::SettleProbe | Phase::SettleSleep | Phase::WaitProbe | Phase::WaitSleep => 6,
        Phase::Sleep | Phase::Capture | Phase::AssertProbe => 5,
        Phase::EmitAck => 4,
        Phase::WaitFinal => 3,
        Phase::EventAck => 1,
        Phase::Done => 0,
    }
}

/// What is left of a polling loop at clock `now`: each probe and each pause
/// of a settle or a wait counts, and a pause consumes time.
pub open spec fn wait_left(s: RunV, now: nat) -> nat {
    match s.phase {
        Phase::SettleProbe => 2 * time_left(now, s.start, s.settle->0) + 1,
        Phase::SettleSleep => 2 * time_left(now, s.start, s.settle->0) + 2,
        Phase::WaitProbe => 2 * time_left(now, s.start, step_timeout(s.steps[s.idx as int])) + 1,
        Phase::WaitSleep => 2 * time_left(now, s.start, step_timeout(s.steps[s.idx as int])) + 2,
        _ => 0,
    }
}

/// A driver's clock across action `a`: a pause moves it forward by at least a
/// millisecond (or to its limit); any other action leaves it.
pub open spec fn clock_moves(a: ActionV, now: nat, now2: nat) -> bool {
    match a {
        ActionV::Sleep(_) => now2 >= now + 1 || now2 >= u64::MAX,
        _ => now2 == now,
    }
}

/// Every run ends under a driver whose clock moves when it pauses: each
/// transition that does not finish the run lowers, in lexicographic order,
/// the steps left, the rank of the phase, and what is left of a polling loop.
pub proof fn lemma_run_progresses(s: RunV, now: nat, reply: ReplyV, now2: nat)
    requires
        well_formed(s),
        !(next(s, now, reply).1 is Finish),
        clock_moves(next(s, now, reply).1, now, now2),
    ensures
        ({
            let s2 = next(s, now, reply).0;
            ||| steps_left(s2) < steps_left(s)
            ||| steps_left(s2) == steps_left(s) && phase_rank(s2.phase) < phase_rank(s.phase)
            ||| steps_left(s2) == steps_left(s) && phase_rank(s2.phase) == phase_rank(s.phase)
                && wait_left(s2, now2) < wait_left(s, now)
        }),
{
}

// ---------------------------------------------------------------------------
// The executable machine
// ---------------------------------------------------------------------------

fn copy_keys(keys: &Vec<Key>) -> (r: Vec<Key>)
    ensures
        r@ == keys@,
{
    let mut out: Vec<Key> = Vec::new();
    let mut i: usize = 0;
    while i < keys.len()
        invariant
            i <= keys@.len(),
            out@ == keys@.take(i as int),
        decreases keys@.len() - i,
    {
        out.push(keys[i]);
        assert(keys@.take(i + 1) =~= keys@.take(i as int).push(keys@[i as int]));
        i = i + 1;
    }
    assert(keys@.take(keys@.len() as int) =~= keys@);
    out
}

fn copy_string(t: &str) -> (r: String)
    ensures
        r@ == t@,
{
    let mut out = String::new();
    push_str(&mut out, t);
    assert(out@ =~= t@);
    out
}

fn same_seam(a: &Option<Json>, b: &Option<Json>) -> (r: bool)
    ensures
        r == ((match *a {
            Some(x) => Some(x@),
            None => None,
        }) == (match *b {
            Some(x) => Some(x@),
            None => None,
        })),
{
    match (a, b) {
        (Some(x), Some(y)) => json_equal(x, y),
        (None, None) => true,
        _ => false,
    }
}

fn elapsed_exec(now: u64, start: u64, ms: u64) -> (r: bool)
    ensures
        r == elapsed(now as nat, start as nat, ms as nat),
{
    (now as u128) >= (start as u128) + (ms as u128) || now == u64::MAX
}

impl ScriptRun {
    /// A run of `steps` under `opts`, not yet started.
    pub fn new(steps: Vec<Step>, opts: &RunOptions) -> (r: ScriptRun)
        ensures
            r@ == initial(
                step_views(steps@),
                match opts.settle_ms {
                    Some(ms) => Some(ms as nat),
                    None => None,
                },
            ),
            well_formed(r@),
    {
        ScriptRun {
            steps,
            settle_ms: opts.settle_ms,
            idx: 0,
            phase: Phase::Idle,
            text: String::new(),
            before: None,
            start: 0,
            ok: false,
            pending: None,
        }
    }

    /// The phase the run is in.
    pub fn phase(&self) -> (r: Phase)
        ensures
            r == self@.phase,
    {
        self.phase
    }

    /// Whether the run has ended.
    pub fn is_done(&self) -> (r: bool)
        ensures
            r == (self@.phase == Phase::Done),
    {
        self.phase == Phase::Done
    }

    fn finish_with(&mut self, r: Result<RunResult, String>) -> (a: RunAction)
        ensures
            ({
                let (s2, act) = finish(
                    old(self)@,
                    match r {
                        Ok(x) => Ok(x@),
                        Err(e) => Err(e@),
                    },
                );
                final(self)@ == s2 && a@ == act
            }),
    {
        self.phase = Phase::Done;
        RunAction::Finish(r)
    }

    fn deliver(&mut self) -> (a: RunAction)
        requires
            old(self)@.idx < old(self)@.steps.len(),
        ensures
            ({
                let (s2, act) = deliver(old(self)@);
                final(self)@ == s2 && a@ == act
            }),
    {
        self.phase = Phase::Send;
        match &self.steps[self.idx] {
            Step::Press(keys) => RunAction::SendKeys(copy_keys(keys)),
            Step::Type { paste, .. } => {
                if *paste {
                    RunAction::Paste(copy_string(self.text.as_str()))
                } else {
                    RunAction::SendKeys(crate::backend::text_keys(self.text.as_str()))
                }
            },
            _ => RunAction::SendKeys(Vec::new()),
        }
    }

    fn prepare(&mut self) -> (a: RunAction)
        requires
            old(self)@.idx < old(self)@.steps.len(),
        ensures
            ({
                let (s2, act) = prepare(old(self)@);
                final(self)@ == s2 && a@ == act
            }),
    {
        if self.settle_ms.is_some() {
            self.phase = Phase::Before;
            RunAction::Probe
        } else {
            self.before = None;
            self.deliver()
        }
    }

    fn input_event(&mut self, now: u64) -> (a: RunAction)
        requires
            old(self)@.idx < old(self)@.steps.len(),
        ensures
            ({
                let (s2, act) = input_event(old(self)@, now as nat);
                final(self)@ == s2 && a@ == act
            }),
    {
        let (kind, detail): (&'static str, String) = match &self.steps[self.idx] {
            Step::Press(keys) => ("press", keys_detail(keys.as_slice())),
            Step::Type { source, .. } => {
                let d = match source {
                    TypeSource::Literal(t) => copy_string(t.as_str()),
                    TypeSource::FromEnv(v) => {
                        let mut d = String::new();
                        push_str(&mut d, "--from-env ");
                        push_str(&mut d, v.as_str());
                        d
                    },
                };
                ("type", d)
            },
            Step::Sleep(ms) => {
                let mut d = String::new();
                push_dec(&mut d, *ms);
                push_str(&mut d, " ms");
                ("sleep", d)
            },
            Step::Capture => ("capture", String::new()),
            Step::Assert(_) => ("assert", String::new()),
            Step::WaitUntil { .. } => ("wait-until", String::new()),
        };
        let n = self.steps.len();
        assert(detail@ =~= step_detail(old(self)@));
        assert(kind@ == step_kind(old(self)@.steps[old(self)@.idx as int]));
        self.phase = Phase::EventAck;
        self.pending = None;
        RunAction::Event(
            RunEvent { t_ms: now, step: self.idx + 1, kind, detail, ok: None, actual: None },
        )
    }

    fn begin(&mut self, now: u64) -> (a: RunAction)
        requires
            well_formed(old(self)@) || old(self)@.idx <= old(self)@.steps.len(),
        ensures
            ({
                let (s2, act) = begin(old(self)@, now as nat);
                final(self)@ == s2 && a@ == act
            }),
    {
        if self.idx >= self.steps.len() {
            return self.finish_with(Ok(RunResult::Passed));
        }
        match &self.steps[self.idx] {
            Step::Press(_) => self.prepare(),
            Step::Type { source, .. } => match source {
                TypeSource::Literal(t) => {
                    self.text = copy_string(t.as_str());
                    self.prepare()
                },
                TypeSource::FromEnv(v) => {
                    let var = copy_string(v.as_str());
                    self.phase = Phase::Env;
                    RunAction::ReadEnv(var)
                },
            },
            Step::Sleep(ms) => {
                let ms = *ms;
                self.phase = Phase::Sleep;
                RunAction::Sleep(ms)
            },
            Step::Capture => {
                self.phase = Phase::Capture;
                RunAction::Capture
            },
            Step::Assert(_) => {
                self.phase = Phase::AssertProbe;
                RunAction::Probe
            },
            Step::WaitUntil { .. } => {
                self.phase = Phase::WaitProbe;
                self.start = now;
                RunAction::Probe
            },
        }
    }

    fn judge_assert(&mut self, now: u64, seam: Option<Json>) -> (a: RunAction)
        requires
            old(self)@.idx < old(self)@.steps.len(),
            old(self)@.steps[old(self)@.idx as int] is Assert,
        ensures
            ({
                let (s2, act) = judge_assert(old(self)@, now as nat, opt_view(seam));
                final(self)@ == s2 && a@ == act
            }),
    {
        let n = self.steps.len();
        let step_no = self.idx + 1;
        let (ok, obs, has_state, detail, path) = match &self.steps[self.idx] {
            Step::Assert(c) => {
                let (ok, obs, has) = match &seam {
                    Some(v) => (c.eval(v), c.observed(v), true),
                    None => (false, Observed::Missing, false),
                };
                (ok, obs, has, c.to_spec(), copy_string(c.path()))
            },
            _ => {
                proof {
                    assert(false);
                }
                (false, Observed::Missing, false, String::new(), String::new())
            },
        };
        let actual = match obs.scalar() {
            Some(t) => Some(copy_string(t)),
            None => None,
        };
        let ev = RunEvent {
            t_ms: now,
            step: step_no,
            kind: "assert",
            detail: copy_string(detail.as_str()),
            ok: Some(ok),
            actual,
        };
        if ok {
            self.pending = None;
        } else {
            let reason = if has_state {
                FailReason::Unmet { observed: obs }
            } else {
                FailReason::NoState
            };
            self.pending = Some(
                StepFailure { step: step_no, kind: "assert", cond: detail, path, reason },
            );
        }
        self.phase = Phase::EventAck;
        RunAction::Event(ev)
    }

    fn judge_wait(&mut self, now: u64, seam: Option<Json>) -> (a: RunAction)
        requires
            old(self)@.idx < old(self)@.steps.len(),
            old(self)@.steps[old(self)@.idx as int] is WaitUntil,
        ensures
            ({
                let (s2, act) = judge_wait(old(self)@, now as nat, opt_view(seam));
                final(self)@ == s2 && a@ == act
            }),
    {
        let n = self.steps.len();
        let step_no = self.idx + 1;
        let (obs, detail, path, timeout) = match &self.steps[self.idx] {
            Step::WaitUntil { cond, timeout_ms, .. } => {
                let obs = match &seam {
                    Some(v) => cond.observed(v),
                    None => Observed::Missing,
                };
                (obs, cond.to_spec(), copy_string(cond.path()), *timeout_ms)
            },
            _ => {
                proof {
                    assert(false);
                }
                (Observed::Missing, String::new(), String::new(), 0)
            },
        };
        let actual = match obs.scalar() {
            Some(t) => Some(copy_string(t)),
            None => None,
        };
        let ok = self.ok;
        let ev = RunEvent {
            t_ms: now,
            step: step_no,
            kind: "wait-until",
            detail: copy_string(detail.as_str()),
            ok: Some(ok),
            actual,
        };
        if ok {
            self.pending = None;
        } else {
            let reason = FailReason::TimedOut { timeout_ms: timeout, observed: obs };
            self.pending = Some(
                StepFailure { step: step_no, kind: "wait-until", cond: detail, path, reason },
            );
        }
        self.phase = Phase::EventAck;
        RunAction::Event(ev)
    }

    fn on_env(&mut self, now: u64, reply: RunReply) -> (a: RunAction)
        requires
            old(self)@.phase == Phase::Env,
            well_formed(old(self)@),
        ensures
            final(self)@ == next(old(self)@, now as nat, reply@).0,
            a@ == next(old(self)@, now as nat, reply@).1,
    {
        match reply {
            RunReply::Env(Some(t)) => {
                self.text = t;
                self.prepare()
            },
            _ => {
                let mut m = String::new();
                push_str(&mut m, "step ");
                push_dec(&mut m, (self.idx as u128) + 1);
                push_str(&mut m, ": environment variable ");
                match &self.steps[self.idx] {
                    Step::Type { source: TypeSource::FromEnv(v), .. } => push_str(&mut m, v.as_str()),
                    _ => {},
                }
                push_str(&mut m, " is not set");
                assert(m@ =~= env_error(
                    old(self)@.idx + 1,
                    step_var(old(self)@.steps[old(self)@.idx as int]),
                ));
                self.finish_with(Err(m))
            },
        }
    }

    fn on_send(&mut self, now: u64, reply: RunReply) -> (a: RunAction)
        requires
            old(self)@.phase == Phase::Send,
            well_formed(old(self)@),
        ensures
            final(self)@ == next(old(self)@, now as nat, reply@).0,
            a@ == next(old(self)@, now as nat, reply@).1,
    {
        match reply {
            RunReply::Done(Ok(())) => {
                if self.settle_ms.is_some() {
                    self.phase = Phase::SettleProbe;
                    self.start = now;
                    RunAction::Probe
                } else {
                    self.input_event(now)
                }
            },
            RunReply::Done(Err(e)) => self.finish_with(Err(e)),
            _ => self.finish_with(Err(copy_string("the driver's reply does not answer the last action"))),
        }
    }

    fn on_settle_probe(&mut self, now: u64, reply: RunReply) -> (a: RunAction)
        requires
            old(self)@.phase == Phase::SettleProbe,
            well_formed(old(self)@),
        ensures
            final(self)@ == next(old(self)@, now as nat, reply@).0,
            a@ == next(old(self)@, now as nat, reply@).1,
    {
        let seam = match reply {
            RunReply::State(st) => st,
            _ => None,
        };
        let limit = match self.settle_ms {
            Some(ms) => ms,
            None => 0,
        };
        if !same_seam(&seam, &self.before) || elapsed_exec(now, self.start, limit) {
            self.input_event(now)
        } else {
            self.phase = Phase::SettleSleep;
            RunAction::Sleep(SETTLE_INTERVAL_MS as u128)
        }
    }

    fn on_event_ack(&mut self, now: u64) -> (a: RunAction)
        requires
            old(self)@.phase == Phase::EventAck,
            well_formed(old(self)@),
        ensures
            final(self)@ == next(old(self)@, now as nat, ReplyV::Ack).0,
            a@ == next(old(self)@, now as nat, ReplyV::Ack).1,
    {
        let n = self.steps.len();
        match self.pending.take() {
            Some(f) => self.finish_with(Ok(RunResult::Failed(f))),
            None => {
                self.idx = self.idx + 1;
                self.begin(now)
            },
        }
    }

    fn on_capture(&mut self, now: u64, reply: RunReply) -> (a: RunAction)
        requires
            old(self)@.phase == Phase::Capture,
            well_formed(old(self)@),
        ensures
            final(self)@ == next(old(self)@, now as nat, reply@).0,
            a@ == next(old(self)@, now as nat, reply@).1,
    {
        match reply {
            RunReply::Screen(Ok(t)) => {
                self.phase = Phase::EmitAck;
                RunAction::Emit(t)
            },
            RunReply::Screen(Err(e)) => self.finish_with(Err(e)),
            _ => self.finish_with(Err(copy_string("the driver's reply does not answer the last action"))),
        }
    }

    fn on_wait_probe(&mut self, now: u64, reply: RunReply) -> (a: RunAction)
        requires
            old(self)@.phase == Phase::WaitProbe,
            well_formed(old(self)@),
        ensures
            final(self)@ == next(old(self)@, now as nat, reply@).0,
            a@ == next(old(self)@, now as nat, reply@).1,
    {
        let seam = match reply {
            RunReply::State(st) => st,
            _ => None,
        };
        let (held, timeout, interval) = match &self.steps[self.idx] {
            Step::WaitUntil { cond, timeout_ms, interval_ms } => {
                let held = match &seam {
                    Some(v) => cond.eval(v),
                    None => false,
                };
                (held, *timeout_ms, *interval_ms)
            },
            _ => {
                proof {
                    assert(false);
                }
                (false, 0, 0)
            },
        };
        if held {
            self.phase = Phase::WaitFinal;
            self.ok = true;
            RunAction::Probe
        } else if elapsed_exec(now, self.start, timeout) {
            self.phase = Phase::WaitFinal;
            self.ok = false;
            RunAction::Probe
        } else {
            self.phase = Phase::WaitSleep;
            RunAction::Sleep(interval as u128)
        }
    }

    /// Take the reply to the previous action, `now` milliseconds into the run,
    /// and return the next action. The first call passes [`RunReply::Start`].
    pub fn resume(&mut self, now: u64, reply: RunReply) -> (a: RunAction)
        requires
            well_formed(old(self)@),
        ensures
            final(self)@ == next(old(self)@, now as nat, reply@).0,
            a@ == next(old(self)@, now as nat, reply@).1,
            well_formed(final(self)@),
    {
        proof {
            lemma_next_well_formed(self@, now as nat, reply@);
        }
        match self.phase {
            Phase::Idle => self.begin(now),
            Phase::Env => self.on_env(now, reply),
            Phase::Before => {
                self.before = match reply {
                    RunReply::State(st) => st,
                    _ => None,
                };
                self.deliver()
            },
            Phase::Send => self.on_send(now, reply),
            Phase::SettleProbe => self.on_settle_probe(now, reply),
            Phase::SettleSleep => {
                self.phase = Phase::SettleProbe;
                RunAction::Probe
            },
            Phase::EventAck => self.on_event_ack(now),
            Phase::Sleep => self.input_event(now),
            Phase::Capture => self.on_capture(now, reply),
            Phase::EmitAck => self.input_event(now),
            Phase::AssertProbe => {
                let seam = match reply {
                    RunReply::State(st) => st,
                    _ => None,
                };
                self.judge_assert(now, seam)
            },
            Phase::WaitProbe => self.on_wait_probe(now, reply),
            Phase::WaitSleep => {
                self.phase = Phase::WaitProbe;
                RunAction::Probe
            },
            Phase::WaitFinal => {
                let seam = match reply {
                    RunReply::State(st) => st,
                    _ => None,
                };
                self.judge_wait(now, seam)
            },
            Phase::Done => RunAction::Finish(Err(copy_string("the run has finished"))),
        }
    }
}

} // verus!
