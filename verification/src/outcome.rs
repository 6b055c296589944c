//! What a script run reports: per-step events, the failing step, and the
//! overall verdict, with their human and machine-readable forms.
use crate::condition::{describe_text, Observed, ObservedV};
use crate::json::{Json, JsonV};
use crate::key::{tmux_name, Key, TmuxKey};
use crate::script::join_words;
use crate::text::{dec, push_char, push_dec, push_str};
use vstd::prelude::*;

verus! {

/// Why a step failed.
#[derive(Debug, Clone, PartialEq, Eq)]
pub enum FailReason {
    /// The condition did not hold; `observed` is what the path resolved to.
    Unmet {
        /// What the condition's path resolved to.
        observed: Observed,
    },
    /// There was no readable state seam to check against.
    NoState,
    /// A `wait-until` timed out; `observed` is the last thing the path held.
    TimedOut {
        /// The timeout that elapsed, in milliseconds.
        timeout_ms: u64,
        /// The last value the path held before the timeout.
        observed: Observed,
    },
}

/// A structured description of the step that ended a run.
#[derive(Debug, Clone, PartialEq, Eq)]
pub struct StepFailure {
    /// 1-based step number in the script.
    pub step: usize,
    /// The failing verb, `"assert"` or `"wait-until"`.
    pub kind: &'static str,
    /// The condition spec that failed, in canonical form (`bag.count=2`).
    pub cond: String,
    /// The dot-path the condition addressed.
    pub path: String,
    /// Why it failed.
    pub reason: FailReason,
}

/// The result of running a whole script.
#[derive(Debug, Clone, PartialEq, Eq)]
pub enum RunResult {
    /// Every step passed.
    Passed,
    /// An `assert`/`wait-until` step did not hold.
    Failed(StepFailure),
}

/// One recorded step during a run.
#[derive(Debug, Clone, PartialEq, Eq)]
pub struct RunEvent {
    /// Milliseconds since the run started.
    pub t_ms: u64,
    /// 1-based step number.
    pub step: usize,
    /// The verb: `press`, `type`, `assert`, `wait-until`, `capture`, `sleep`.
    pub kind: &'static str,
    /// A short description (keys pressed, condition spec, duration). Never a
    /// secret: `type --from-env VAR` records the variable name, not its value.
    pub detail: String,
    /// For `assert`/`wait-until`, whether it held; `None` for input steps.
    pub ok: Option<bool>,
    /// For condition steps, the scalar the path held, if any.
    pub actual: Option<String>,
}

/// The mathematical form of a [`FailReason`].
pub enum ReasonV {
    /// Unmet.
    Unmet(ObservedV),
    /// No state.
    NoState,
    /// Timed out after the given milliseconds.
    TimedOut(nat, ObservedV),
}

/// The mathematical form of a [`StepFailure`].
pub struct FailureV {
    /// Step number.
    pub step: nat,
    /// Verb.
    pub kind: Seq<char>,
    /// Condition spelling.
    pub cond: Seq<char>,
    /// Path.
    pub path: Seq<char>,
    /// Reason.
    pub reason: ReasonV,
}

/// The mathematical form of a [`RunResult`].
pub enum ResultV {
    /// Passed.
    Passed,
    /// Failed.
    Failed(FailureV),
}

/// The mathematical form of a [`RunEvent`].
pub struct EventV {
    /// Time.
    pub t_ms: nat,
    /// Step number.
    pub step: nat,
    /// Verb.
    pub kind: Seq<char>,
    /// Detail.
    pub detail: Seq<char>,
    /// Outcome of a condition step.
    pub ok: Option<bool>,
    /// Observed scalar.
    pub actual: Option<Seq<char>>,
}

impl View for FailReason {
    type V = ReasonV;

    open spec fn view(&self) -> ReasonV {
        match self {
            FailReason::Unmet { observed } => ReasonV::Unmet(observed@),
            FailReason::NoState => ReasonV::NoState,
            FailReason::TimedOut { timeout_ms, observed } => ReasonV::TimedOut(
                *timeout_ms as nat,
                observed@,
            ),
        }
    }
}

impl View for StepFailure {
    type V = FailureV;

    open spec fn view(&self) -> FailureV {
        FailureV {
            step: self.step as nat,
            kind: self.kind@,
            cond: self.cond@,
            path: self.path@,
            reason: self.reason@,
        }
    }
}

impl View for RunResult {
    type V = ResultV;

    open spec fn view(&self) -> ResultV {
        match self {
            RunResult::Passed => ResultV::Passed,
            RunResult::Failed(f) => ResultV::Failed(f@),
        }
    }
}

impl View for RunEvent {
    type V = EventV;

    open spec fn view(&self) -> EventV {
        EventV {
            t_ms: self.t_ms as nat,
            step: self.step as nat,
            kind: self.kind@,
            detail: self.detail@,
            ok: self.ok,
            actual: match self.actual {
                Some(a) => Some(a@),
                None => None,
            },
        }
    }
}

/// The one-line human explanation of a failure.
pub open spec fn human_text(f: FailureV) -> Seq<char> {
    let head = "step "@ + dec(f.step) + ": "@ + f.kind + " "@ + f.cond;
    match f.reason {
        ReasonV::NoState => head + " has no readable state"@,
        ReasonV::Unmet(o) => head + " did not hold ("@ + describe_text(o, f.path) + ")"@,
        ReasonV::TimedOut(ms, o) => head + " timed out after "@ + dec(ms) + " ms ("@
            + describe_text(o, f.path) + ")"@,
    }
}

/// The JSON form of an observation.
pub open spec fn observed_json(o: ObservedV) -> JsonV {
    match o {
        ObservedV::Scalar(s) => JsonV::Str(s),
        _ => JsonV::Null,
    }
}

/// The machine-readable form of a failure.
pub open spec fn failure_json(f: FailureV) -> JsonV {
    let head = seq![
        ("step"@, JsonV::Number(dec(f.step))),
        ("kind"@, JsonV::Str(f.kind)),
        ("cond"@, JsonV::Str(f.cond)),
        ("path"@, JsonV::Str(f.path)),
    ];
    JsonV::Object(
        match f.reason {
            ReasonV::NoState => head.push(("error"@, JsonV::Str("no readable state"@))),
            ReasonV::Unmet(o) => head.push(("actual"@, observed_json(o))),
            ReasonV::TimedOut(ms, o) => head.push(("timeout_ms"@, JsonV::Number(dec(ms)))).push(
                ("actual"@, observed_json(o)),
            ),
        },
    )
}

/// The machine-readable form of an event: `ok` and `actual` only when present.
pub open spec fn event_json(e: EventV) -> JsonV {
    let head = seq![
        ("t_ms"@, JsonV::Number(dec(e.t_ms))),
        ("step"@, JsonV::Number(dec(e.step))),
        ("kind"@, JsonV::Str(e.kind)),
        ("detail"@, JsonV::Str(e.detail)),
    ];
    let with_ok = match e.ok {
        Some(b) => head.push(("ok"@, JsonV::Bool(b))),
        None => head,
    };
    JsonV::Object(
        match e.actual {
            Some(a) => with_ok.push(("actual"@, JsonV::Str(a))),
            None => with_ok,
        },
    )
}

/// A readable spelling of keys: their tmux forms joined by spaces
/// (`Down Down Enter`).
pub open spec fn keys_text(keys: Seq<Key>) -> Seq<char> {
    join_words(keys.map_values(|k: Key| tmux_name(k)))
}

fn owned(s: &str) -> (r: String)
    ensures
        r@ == s@,
{
    let mut t = String::new();
    push_str(&mut t, s);
    assert(t@ =~= s@);
    t
}

fn dec_json(n: u128) -> (j: Json)
    ensures
        j@ == JsonV::Number(dec(n as nat)),
{
    let mut t = String::new();
    push_dec(&mut t, n);
    assert(t@ =~= dec(n as nat));
    Json::Number(t)
}

impl StepFailure {
    /// A one-line human explanation, e.g.
    /// `step 2: assert bag.count=2 did not hold (bag.count was 1)`.
    pub fn human(&self) -> (r: String)
        ensures
            r@ == human_text(self@),
    {
        let mut out = String::new();
        push_str(&mut out, "step ");
        push_dec(&mut out, self.step as u128);
        push_str(&mut out, ": ");
        push_str(&mut out, self.kind);
        push_str(&mut out, " ");
        push_str(&mut out, self.cond.as_str());
        match &self.reason {
            FailReason::NoState => push_str(&mut out, " has no readable state"),
            FailReason::Unmet { observed } => {
                push_str(&mut out, " did not hold (");
                let d = observed.describe(self.path.as_str());
                push_str(&mut out, d.as_str());
                push_str(&mut out, ")");
            },
            FailReason::TimedOut { timeout_ms, observed } => {
                push_str(&mut out, " timed out after ");
                push_dec(&mut out, *timeout_ms as u128);
                push_str(&mut out, " ms (");
                let d = observed.describe(self.path.as_str());
                push_str(&mut out, d.as_str());
                push_str(&mut out, ")");
            },
        }
        assert(out@ =~= human_text(self@));
        out
    }

    /// The machine-readable form, for `--json`.
    pub fn to_json(&self) -> (r: Json)
        ensures
            r@ == failure_json(self@),
    {
        let mut m: Vec<(String, Json)> = Vec::new();
        m.push((owned("step"), dec_json(self.step as u128)));
        m.push((owned("kind"), Json::string(self.kind)));
        m.push((owned("cond"), Json::string(self.cond.as_str())));
        m.push((owned("path"), Json::string(self.path.as_str())));
        match &self.reason {
            FailReason::NoState => {
                m.push((owned("error"), Json::string("no readable state")));
            },
            FailReason::Unmet { observed } => {
                m.push((owned("actual"), observed.to_json()));
            },
            FailReason::TimedOut { timeout_ms, observed } => {
                m.push((owned("timeout_ms"), dec_json(*timeout_ms as u128)));
                m.push((owned("actual"), observed.to_json()));
            },
        }
        let r = Json::Object(m);
        assert(r@->Object_0 =~= failure_json(self@)->Object_0);
        r
    }
}

impl RunEvent {
    /// The machine-readable form, one JSONL line in an events file.
    pub fn to_json(&self) -> (r: Json)
        ensures
            r@ == event_json(self@),
    {
        let mut m: Vec<(String, Json)> = Vec::new();
        m.push((owned("t_ms"), dec_json(self.t_ms as u128)));
        m.push((owned("step"), dec_json(self.step as u128)));
        m.push((owned("kind"), Json::string(self.kind)));
        m.push((owned("detail"), Json::string(self.detail.as_str())));
        if let Some(ok) = self.ok {
            m.push((owned("ok"), Json::boolean(ok)));
        }
        if let Some(a) = &self.actual {
            m.push((owned("actual"), Json::string(a.as_str())));
        }
        let r = Json::Object(m);
        assert(r@->Object_0 =~= event_json(self@)->Object_0);
        r
    }
}

/// A readable spelling of a key run for an event `detail`, e.g.
/// `Down Down Enter`.
pub fn keys_detail(keys: &[Key]) -> (r: String)
    ensures
        r@ == keys_text(keys@),
{
    let ghost names = keys@.map_values(|k: Key| tmux_name(k));
    let mut out = String::new();
    let mut i: usize = 0;
    assert(names.take(0) =~= Seq::<Seq<char>>::empty());
    while i < keys.len()
        invariant
            i <= keys@.len(),
            names == keys@.map_values(|k: Key| tmux_name(k)),
            out@ == join_words(names.take(i as int)),
        decreases keys@.len() - i,
    {
        let ghost sub = names.take(i + 1);
        assert(sub.drop_last() =~= names.take(i as int));
        if i > 0 {
            push_char(&mut out, ' ');
        }
        match keys[i].to_tmux() {
            TmuxKey::Literal(c) => push_char(&mut out, c),
            TmuxKey::Named(n) => push_str(&mut out, n.as_str()),
        }
        proof {
            reveal_strlit(" ");
            assert(sub.last() == tmux_name(keys@[i as int]));
        }
        assert(out@ =~= join_words(sub));
        i = i + 1;
    }
    assert(names.take(keys@.len() as int) =~= names);
    out
}

} // verus!
