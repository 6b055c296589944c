//! The decisions and reports of the command-line program: which text a `type`
//! command sends, which host a command drives, and the JSON and text it
//! prints. Exit codes: `0` success or the condition held, `1` the condition
//! failed or timed out, `2` a usage or backend error.
use crate::backend::{ScreenBackend, TmuxBackend, ZellijBackend};
use crate::condition::{cond_path, describe_text, holds, observe, spec_text, Condition, Observed, ObservedV, CondV};
use crate::json::{Json, JsonV};
use crate::outcome::{event_json, failure_json, observed_json, EventV, ResultV, RunEvent, RunResult};
use crate::seam::SeamReport;
use crate::text::{dec, push_dec, push_str};
use vstd::prelude::*;

verus! {

/// Where the text of a `type` command comes from.
#[derive(Debug, Clone, PartialEq, Eq)]
pub enum TextSource {
    /// The literal argument.
    Literal(String),
    /// Standard input.
    Stdin,
    /// The named environment variable.
    Env(String),
}

/// The message for a `type` command given no text source, or more than one.
pub open spec fn one_source_message() -> Seq<char> {
    "provide exactly one text source: a literal argument, --stdin, or --from-env VAR"@
}

fn owned(s: &str) -> (r: String)
    ensures
        r@ == s@,
{
    let mut t = String::new();
    push_str(&mut t, s);
    assert(t@ =~= s@);
    t
}

/// The text source of a `type` command: exactly one of a literal argument,
/// `--stdin`, or `--from-env VAR`; none, or more than one, is a usage error.
pub fn pick_text_source(text: Option<String>, stdin: bool, from_env: Option<String>) -> (r: Result<
    TextSource,
    String,
>)
    ensures
        match (text, stdin, from_env) {
            (Some(t), false, None) => r matches Ok(TextSource::Literal(u)) && u@ == t@,
            (None, true, None) => r == Ok::<TextSource, String>(TextSource::Stdin),
            (None, false, Some(v)) => r matches Ok(TextSource::Env(u)) && u@ == v@,
            _ => r matches Err(e) && e@ == one_source_message(),
        },
{
    match (text, stdin, from_env) {
        (Some(t), false, None) => Ok(TextSource::Literal(t)),
        (None, true, None) => Ok(TextSource::Stdin),
        (None, false, Some(v)) => Ok(TextSource::Env(v)),
        _ => Err(
            owned(
                "provide exactly one text source: a literal argument, --stdin, or --from-env VAR",
            ),
        ),
    }
}

/// `s` without one trailing line ending (`\n` or `\r\n`), so `echo secret |`
/// and `printf %s secret |` give the same value.
pub open spec fn strip_line_ending(s: Seq<char>) -> Seq<char> {
    if s.len() > 0 && s.last() == '\n' {
        let t = s.drop_last();
        if t.len() > 0 && t.last() == '\r' {
            t.drop_last()
        } else {
            t
        }
    } else {
        s
    }
}

/// Text read from standard input, without one trailing line ending.
pub fn stdin_text(s: &str) -> (r: String)
    ensures
        r@ == strip_line_ending(s@),
{
    let cs = crate::text::chars_of(s);
    let mut end = cs.len();
    if end > 0 && cs[end - 1] == '\n' {
        end = end - 1;
        if end > 0 && cs[end - 1] == '\r' {
            end = end - 1;
        }
    }
    let r = crate::text::string_of(&cs, 0, end);
    assert(r@ =~= strip_line_ending(s@));
    r
}

/// The message for an environment variable that is not set.
pub fn env_unset_message(var: &str) -> (r: String)
    ensures
        r@ == "environment variable "@ + var@ + " is not set"@,
{
    let mut m = String::new();
    push_str(&mut m, "environment variable ");
    push_str(&mut m, var);
    push_str(&mut m, " is not set");
    m
}

/// The terminal hosts a command can drive.
#[derive(Debug, Clone, Copy, PartialEq, Eq, Structural)]
pub enum HostKind {
    /// Attach to a running tmux pane.
    Tmux,
    /// Attach to a running zellij session (addressed by session name).
    Zellij,
    /// Attach to a running GNU screen session (addressed by session name).
    Screen,
    /// Spawn the program in an owned pseudo-terminal; only for `run`.
    Pty,
}

/// A host to attach to.
#[derive(Debug, Clone)]
pub enum Host {
    /// A tmux pane.
    Tmux(TmuxBackend),
    /// A zellij session.
    Zellij(ZellijBackend),
    /// A GNU screen session.
    Screen(ScreenBackend),
}

/// The kind of an attached host and the target it addresses.
pub open spec fn host_view(h: Host) -> (HostKind, Seq<char>) {
    match h {
        Host::Tmux(b) => (HostKind::Tmux, b@),
        Host::Zellij(b) => (HostKind::Zellij, b@),
        Host::Screen(b) => (HostKind::Screen, b@),
    }
}

/// The message for a one-shot command on the PTY host.
pub open spec fn pty_one_shot_message() -> Seq<char> {
    "the pty backend spawns a program, so it only works with `run ... -- <program>`, not one-shot commands"@
}

fn attach(kind: HostKind, pane: String) -> (r: Host)
    requires
        kind != HostKind::Pty,
    ensures
        host_view(r) == (kind, pane@),
{
    match kind {
        HostKind::Tmux => Host::Tmux(TmuxBackend::new(pane)),
        HostKind::Zellij => Host::Zellij(ZellijBackend::new(pane)),
        _ => Host::Screen(ScreenBackend::new(pane)),
    }
}

/// The host a one-shot command (`press`, `type`, `capture`) attaches to. The
/// PTY host spawns a program, so it is refused here.
pub fn one_shot_host(kind: HostKind, pane: String) -> (r: Result<Host, String>)
    ensures
        kind == HostKind::Pty ==> (r matches Err(e) && e@ == pty_one_shot_message()),
        kind != HostKind::Pty ==> (r matches Ok(h) && host_view(h) == (kind, pane@)),
{
    if kind == HostKind::Pty {
        return Err(
            owned(
                "the pty backend spawns a program, so it only works with `run ... -- <program>`, not one-shot commands",
            ),
        );
    }
    Ok(attach(kind, pane))
}

/// The message for an attach host of `run` given no target.
pub open spec fn missing_pane_message(kind: HostKind) -> Seq<char> {
    match kind {
        HostKind::Tmux => "--pane is required for the tmux backend"@,
        HostKind::Zellij => "--pane (session name) is required for the zellij backend"@,
        _ => "--pane (session name) is required for the screen backend"@,
    }
}

/// The host `run` drives: an attach host needs `--pane`; the PTY host
/// (`Ok(None)`) spawns the program given after `--`.
pub fn run_host(kind: HostKind, pane: Option<String>) -> (r: Result<Option<Host>, String>)
    ensures
        kind == HostKind::Pty ==> r matches Ok(None),
        kind != HostKind::Pty ==> match pane {
            Some(p) => r matches Ok(Some(h)) && host_view(h) == (kind, p@),
            None => r matches Err(e) && e@ == missing_pane_message(kind),
        },
{
    if kind == HostKind::Pty {
        return Ok(None);
    }
    match pane {
        Some(p) => Ok(Some(attach(kind, p))),
        None => Err(
            match kind {
                HostKind::Tmux => owned("--pane is required for the tmux backend"),
                HostKind::Zellij => owned(
                    "--pane (session name) is required for the zellij backend",
                ),
                _ => owned("--pane (session name) is required for the screen backend"),
            },
        ),
    }
}

/// Whether a run on this host can be recorded as a cast: only hosts that
/// expose a byte stream (the PTY and tmux).
pub fn cast_supported(kind: HostKind) -> (r: bool)
    ensures
        r == (kind == HostKind::Pty || kind == HostKind::Tmux),
{
    kind == HostKind::Pty || kind == HostKind::Tmux
}

/// The verdict of a one-shot `assert` on the seam it read: the condition over
/// the state, and failed when no state could be read.
pub fn assert_verdict(cond: &Condition, state: &Option<Json>) -> (r: bool)
    ensures
        r == match state {
            Some(v) => holds(cond@, v@),
            None => false,
        },
{
    match state {
        Some(v) => cond.eval(v),
        None => false,
    }
}

/// The exit code of a one-shot check (`assert`, `wait-until`,
/// `validate-seam`): `0` when it held, `1` when it did not.
pub fn verdict_code(held: bool) -> (r: u8)
    ensures
        r == (if held {
            0u8
        } else {
            1u8
        }),
{
    if held {
        0
    } else {
        1
    }
}

/// The exit code of a finished run: `0` when it passed, `1` when a step
/// failed.
pub fn exit_code(outcome: &RunResult) -> (r: u8)
    ensures
        r == (if outcome@ is Passed {
            0u8
        } else {
            1u8
        }),
{
    match outcome {
        RunResult::Passed => 0,
        RunResult::Failed(_) => 1,
    }
}

fn key(k: &str) -> (r: String)
    ensures
        r@ == k@,
{
    owned(k)
}

fn dec_json(n: u128) -> (r: Json)
    ensures
        r@ == JsonV::Number(dec(n as nat)),
{
    let mut t = String::new();
    push_dec(&mut t, n);
    assert(t@ =~= dec(n as nat));
    Json::Number(t)
}

/// The `--json` report of `assert`: whether the condition held, the
/// condition, its path, and what the path held.
pub open spec fn assert_report_view(c: CondV, state: JsonV) -> JsonV {
    JsonV::Object(
        seq![
            ("ok"@, JsonV::Bool(holds(c, state))),
            ("cond"@, JsonV::Str(spec_text(c))),
            ("path"@, JsonV::Str(cond_path(c))),
            ("actual"@, observed_json(observe(state, cond_path(c)))),
        ],
    )
}

/// The `--json` report of `assert` against a state.
pub fn assert_report(cond: &Condition, state: &Json) -> (r: Json)
    ensures
        r@ == assert_report_view(cond@, state@),
{
    let mut es: Vec<(String, Json)> = Vec::new();
    es.push((key("ok"), Json::boolean(cond.eval(state))));
    es.push((key("cond"), Json::string(cond.to_spec().as_str())));
    es.push((key("path"), Json::string(cond.path())));
    es.push((key("actual"), cond.observed(state).to_json()));
    let r = Json::Object(es);
    assert(r@->Object_0 =~= assert_report_view(cond@, state@)->Object_0);
    r
}

/// The `--json` report of `assert` when there is no readable state.
pub fn no_state_report(cond: &Condition) -> (r: Json)
    ensures
        r@ == JsonV::Object(
            seq![
                ("ok"@, JsonV::Bool(false)),
                ("cond"@, JsonV::Str(spec_text(cond@))),
                ("error"@, JsonV::Str("no readable state"@)),
            ],
        ),
{
    let mut es: Vec<(String, Json)> = Vec::new();
    es.push((key("ok"), Json::boolean(false)));
    es.push((key("cond"), Json::string(cond.to_spec().as_str())));
    es.push((key("error"), Json::string("no readable state")));
    let r = Json::Object(es);
    assert(r@->Object_0 =~= seq![
        ("ok"@, JsonV::Bool(false)),
        ("cond"@, JsonV::Str(spec_text(cond@))),
        ("error"@, JsonV::Str("no readable state"@)),
    ]);
    r
}

/// The `--json` report of a `wait-until` whose condition held.
pub fn wait_held_report(cond: &Condition, waited_ms: u64) -> (r: Json)
    ensures
        r@ == JsonV::Object(
            seq![
                ("ok"@, JsonV::Bool(true)),
                ("cond"@, JsonV::Str(spec_text(cond@))),
                ("waited_ms"@, JsonV::Number(dec(waited_ms as nat))),
            ],
        ),
{
    let mut es: Vec<(String, Json)> = Vec::new();
    es.push((key("ok"), Json::boolean(true)));
    es.push((key("cond"), Json::string(cond.to_spec().as_str())));
    es.push((key("waited_ms"), dec_json(waited_ms as u128)));
    let r = Json::Object(es);
    assert(r@->Object_0 =~= seq![
        ("ok"@, JsonV::Bool(true)),
        ("cond"@, JsonV::Str(spec_text(cond@))),
        ("waited_ms"@, JsonV::Number(dec(waited_ms as nat))),
    ]);
    r
}

/// The `--json` report of a `wait-until` that timed out, with what the path
/// last held.
pub fn wait_timeout_report(cond: &Condition, timeout_ms: u64, observed: &Observed) -> (r: Json)
    ensures
        r@ == JsonV::Object(
            seq![
                ("ok"@, JsonV::Bool(false)),
                ("cond"@, JsonV::Str(spec_text(cond@))),
                ("path"@, JsonV::Str(cond_path(cond@))),
                ("timeout_ms"@, JsonV::Number(dec(timeout_ms as nat))),
                ("actual"@, observed_json(observed@)),
            ],
        ),
{
    let mut es: Vec<(String, Json)> = Vec::new();
    es.push((key("ok"), Json::boolean(false)));
    es.push((key("cond"), Json::string(cond.to_spec().as_str())));
    es.push((key("path"), Json::string(cond.path())));
    es.push((key("timeout_ms"), dec_json(timeout_ms as u128)));
    es.push((key("actual"), observed.to_json()));
    let r = Json::Object(es);
    assert(r@->Object_0 =~= seq![
        ("ok"@, JsonV::Bool(false)),
        ("cond"@, JsonV::Str(spec_text(cond@))),
        ("path"@, JsonV::Str(cond_path(cond@))),
        ("timeout_ms"@, JsonV::Number(dec(timeout_ms as nat))),
        ("actual"@, observed_json(observed@)),
    ]);
    r
}

/// The message of a `wait-until` that timed out.
pub fn timeout_message(cond: &Condition, timeout_ms: u64, observed: &Observed) -> (r: String)
    ensures
        r@ == "timed out after "@ + dec(timeout_ms as nat) + " ms ("@ + describe_text(
            observed@,
            cond_path(cond@),
        ) + ")"@,
{
    let mut m = String::new();
    push_str(&mut m, "timed out after ");
    push_dec(&mut m, timeout_ms as u128);
    push_str(&mut m, " ms (");
    let d = observed.describe(cond.path());
    push_str(&mut m, d.as_str());
    push_str(&mut m, ")");
    m
}

/// The `--json` report of `validate-seam`.
pub fn seam_report_json(report: &SeamReport) -> (r: Json)
    ensures
        r@ == JsonV::Object(
            seq![
                ("ok"@, JsonV::Bool(report.ok)),
                ("paths"@, JsonV::Number(dec(report.paths as nat))),
                ("problems"@, JsonV::Array(report.problems@.map_values(|p: String| JsonV::Str(p@)))),
            ],
        ),
{
    let mut items: Vec<Json> = Vec::new();
    let mut i: usize = 0;
    while i < report.problems.len()
        invariant
            i <= report.problems@.len(),
            items@.len() == i,
            forall|m: int| 0 <= m < i ==> (#[trigger] items@[m])@ == JsonV::Str(report.problems@[m]@),
        decreases report.problems@.len() - i,
    {
        items.push(Json::string(report.problems[i].as_str()));
        i = i + 1;
    }
    let arr = Json::Array(items);
    assert(arr@->Array_0 =~= report.problems@.map_values(|p: String| JsonV::Str(p@)));
    let mut es: Vec<(String, Json)> = Vec::new();
    es.push((key("ok"), Json::boolean(report.ok)));
    es.push((key("paths"), dec_json(report.paths as u128)));
    es.push((key("problems"), arr));
    let r = Json::Object(es);
    assert(r@->Object_0 =~= seq![
        ("ok"@, JsonV::Bool(report.ok)),
        ("paths"@, JsonV::Number(dec(report.paths as nat))),
        ("problems"@, JsonV::Array(report.problems@.map_values(|p: String| JsonV::Str(p@)))),
    ]);
    r
}

/// The `--json` summary of a run: whether it passed, the failing step and
/// its failure when it did not, and every step's event.
pub open spec fn run_report_view(outcome: ResultV, events: Seq<EventV>) -> JsonV {
    let steps = ("steps"@, JsonV::Array(events.map_values(|e: EventV| event_json(e))));
    match outcome {
        ResultV::Passed => JsonV::Object(seq![("ok"@, JsonV::Bool(true)), steps]),
        ResultV::Failed(f) => JsonV::Object(
            seq![
                ("ok"@, JsonV::Bool(false)),
                ("failed_step"@, JsonV::Number(dec(f.step))),
                ("failure"@, failure_json(f)),
                steps,
            ],
        ),
    }
}

/// The `--json` summary of a run.
pub fn run_report(outcome: &RunResult, events: &Vec<RunEvent>) -> (r: Json)
    ensures
        r@ == run_report_view(outcome@, events@.map_values(|e: RunEvent| e@)),
{
    let ghost ev = events@.map_values(|e: RunEvent| e@);
    let mut items: Vec<Json> = Vec::new();
    let mut i: usize = 0;
    while i < events.len()
        invariant
            i <= events@.len(),
            ev == events@.map_values(|e: RunEvent| e@),
            items@.len() == i,
            forall|m: int| 0 <= m < i ==> (#[trigger] items@[m])@ == event_json(ev[m]),
        decreases events@.len() - i,
    {
        items.push(events[i].to_json());
        i = i + 1;
    }
    let arr = Json::Array(items);
    assert(arr@->Array_0 =~= ev.map_values(|e: EventV| event_json(e)));
    let mut es: Vec<(String, Json)> = Vec::new();
    match outcome {
        RunResult::Passed => {
            es.push((key("ok"), Json::boolean(true)));
        },
        RunResult::Failed(f) => {
            es.push((key("ok"), Json::boolean(false)));
            es.push((key("failed_step"), dec_json(f.step as u128)));
            es.push((key("failure"), f.to_json()));
        },
    }
    es.push((key("steps"), arr));
    let r = Json::Object(es);
    assert(r@->Object_0 =~= run_report_view(outcome@, ev)->Object_0);
    r
}

/// One line of a `watch` recording: `{"t_ms":..,"state":..}`.
pub fn watch_line(t_ms: u64, state: Json) -> (r: Json)
    ensures
        r@ == JsonV::Object(
            seq![("t_ms"@, JsonV::Number(dec(t_ms as nat))), ("state"@, state@)],
        ),
{
    let mut es: Vec<(String, Json)> = Vec::new();
    es.push((key("t_ms"), dec_json(t_ms as u128)));
    let ghost sv = state@;
    es.push((key("state"), state));
    let r = Json::Object(es);
    assert(r@->Object_0 =~= seq![("t_ms"@, JsonV::Number(dec(t_ms as nat))), ("state"@, sv)]);
    r
}

} // verus!
