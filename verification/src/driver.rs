//! Backend-agnostic driving decisions: the state a captured screen stands
//! for, and the polling of a `wait-until` and of a `watch`.
//!
//! Polling alternates reading the seam with sleeping. The reading and the
//! sleeping belong to the program that owns the clock; what to do after each
//! read (stop, report, or sleep again) is decided here, by [`WaitPoll`] and
//! [`WatchPoll`].
use crate::condition::{holds, Condition};
use crate::json::{json_equal, jview, Json, JsonV};
use crate::runner::elapsed;
use crate::text::{chars_of, lines, push_str, split_lines, views};
use vstd::prelude::*;

verus! {

/// The state a captured screen stands for: the whole text under `screen` and
/// each row under `lines.<n>`. Pairs with the `~=` condition, e.g.
/// `screen~=Ready` or `lines.0~=Loading`.
pub open spec fn screen_view(text: Seq<char>) -> JsonV {
    JsonV::Object(
        seq![
            ("lines"@, JsonV::Array(lines(text).map_values(|l: Seq<char>| JsonV::Str(l)))),
            ("screen"@, JsonV::Str(text)),
        ],
    )
}

/// Wrap a captured screen as a structured state value so conditions can run
/// against an uninstrumented app: the whole text is at `screen`, and each row
/// is at `lines.<n>`.
pub fn screen_state(text: &str) -> (r: Json)
    ensures
        r@ == screen_view(text@),
{
    let cs = chars_of(text);
    let ls = split_lines(&cs);
    let ghost lv = views(ls@);
    let mut items: Vec<Json> = Vec::new();
    let mut i: usize = 0;
    while i < ls.len()
        invariant
            i <= ls@.len(),
            lv == views(ls@),
            items@.len() == i,
            forall|m: int| 0 <= m < i ==> (#[trigger] items@[m])@ == JsonV::Str(lv[m]),
        decreases ls@.len() - i,
    {
        let mut t = String::new();
        crate::text::push_chars(&mut t, ls[i].as_slice(), 0, ls[i].len());
        assert(ls@[i as int]@.subrange(0, ls@[i as int]@.len() as int) =~= lv[i as int]);
        items.push(Json::Str(t));
        i = i + 1;
    }
    let arr = Json::Array(items);
    assert(arr@->Array_0 =~= lines(text@).map_values(|l: Seq<char>| JsonV::Str(l)));
    let mut entries: Vec<(String, Json)> = Vec::new();
    let mut k1 = String::new();
    push_str(&mut k1, "lines");
    entries.push((k1, arr));
    let mut k2 = String::new();
    push_str(&mut k2, "screen");
    entries.push((k2, Json::string(text)));
    let r = Json::Object(entries);
    assert(r@->Object_0 =~= screen_view(text@)->Object_0);
    r
}

/// Outcome of waiting for a condition.
#[derive(Debug, Clone, Copy, PartialEq, Eq)]
pub enum WaitOutcome {
    /// The condition held; the value is how long it took to first hold, in
    /// milliseconds.
    Satisfied(u64),
    /// The timeout elapsed without the condition ever holding.
    TimedOut,
}

impl WaitOutcome {
    /// Whether the condition held.
    pub fn is_satisfied(&self) -> (r: bool)
        ensures
            r == (*self is Satisfied),
    {
        match self {
            WaitOutcome::Satisfied(_) => true,
            WaitOutcome::TimedOut => false,
        }
    }
}

/// What a poll decides after one read of the seam.
#[derive(Debug, Clone, Copy, PartialEq, Eq)]
pub enum WaitStep {
    /// Stop with this outcome.
    Done(WaitOutcome),
    /// Sleep this many milliseconds, then read again.
    Sleep(u64),
}

/// A `wait-until` in progress: poll the seam until the condition holds or the
/// timeout elapses, sleeping the interval between reads. The condition is
/// checked on the first read, so an already-satisfied state ends the wait
/// without sleeping.
#[derive(Debug, Clone, Copy, PartialEq, Eq)]
pub struct WaitPoll {
    /// When the wait began, in milliseconds on the caller's clock.
    pub start_ms: u64,
    /// How long to keep polling.
    pub timeout_ms: u64,
    /// How long to sleep between reads.
    pub interval_ms: u64,
}

/// The decision after reading `state` at `now`.
pub open spec fn wait_decision(w: WaitPoll, c: crate::condition::CondV, state: Option<JsonV>, now: nat) -> WaitStep {
    if state matches Some(v) && holds(c, v) {
        WaitStep::Done(
            WaitOutcome::Satisfied(
                if now >= w.start_ms {
                    (now - w.start_ms) as u64
                } else {
                    0
                },
            ),
        )
    } else if elapsed(now, w.start_ms as nat, w.timeout_ms as nat) {
        WaitStep::Done(WaitOutcome::TimedOut)
    } else {
        WaitStep::Sleep(w.interval_ms)
    }
}

impl WaitPoll {
    /// A wait that begins at `start_ms`.
    pub fn new(start_ms: u64, timeout_ms: u64, interval_ms: u64) -> (r: Self)
        ensures
            r == (WaitPoll { start_ms, timeout_ms, interval_ms }),
    {
        WaitPoll { start_ms, timeout_ms, interval_ms }
    }

    /// Decide after reading `state` (`None` when the seam is not readable) at
    /// `now_ms`: the condition held, the time is up, or sleep and read again.
    pub fn next(&self, cond: &Condition, state: &Option<Json>, now_ms: u64) -> (r: WaitStep)
        ensures
            r == wait_decision(
                *self,
                cond@,
                match *state {
                    Some(j) => Some(j@),
                    None => None,
                },
                now_ms as nat,
            ),
            (state matches Some(j) && holds(cond@, j@)) ==> r == WaitStep::Done(
                WaitOutcome::Satisfied(
                    if now_ms >= self.start_ms {
                        (now_ms - self.start_ms) as u64
                    } else {
                        0
                    },
                ),
            ),
    {
        let held = match state {
            Some(v) => cond.eval(v),
            None => false,
        };
        if held {
            let took = if now_ms >= self.start_ms {
                now_ms - self.start_ms
            } else {
                0
            };
            WaitStep::Done(WaitOutcome::Satisfied(took))
        } else if (now_ms as u128) >= (self.start_ms as u128) + (self.timeout_ms as u128) || now_ms
            == u64::MAX {
            WaitStep::Done(WaitOutcome::TimedOut)
        } else {
            WaitStep::Sleep(self.interval_ms)
        }
    }
}

/// A satisfied wait reports how long it took: read at `now`, no earlier than
/// the wait began, a state on which the condition holds ends the wait with
/// the milliseconds elapsed since `start_ms`, so the start plus what is
/// reported is the time of the read.
pub proof fn lemma_wait_reports_elapsed(
    w: WaitPoll,
    c: crate::condition::CondV,
    v: JsonV,
    now: nat,
)
    requires
        holds(c, v),
        w.start_ms <= now <= u64::MAX,
    ensures
        wait_decision(w, c, Some(v), now) matches WaitStep::Done(WaitOutcome::Satisfied(t)) && w.start_ms
            + t == now,
{
}

/// A poll whose next read comes after a pause ends: a wait that neither held
/// nor timed out sleeps its interval, and under a clock that moves forward by
/// at least a millisecond per pause, it times out after at most
/// `timeout + 1` reads.
pub proof fn lemma_wait_ends(w: WaitPoll, c: crate::condition::CondV, state: Option<JsonV>, now: nat)
    requires
        now >= w.start_ms + w.timeout_ms,
    ensures
        wait_decision(w, c, state, now) is Done,
{
}

/// What a watch does after one read of the seam.
#[derive(Debug)]
pub struct WatchStep {
    /// The state to report, with the milliseconds since the watch began.
    pub emit: Option<(u64, Json)>,
    /// `Some(ms)`: sleep that long and read again; `None`: the watch is over.
    pub sleep_ms: Option<u64>,
}

/// A `watch` in progress: sample the seam every interval for a duration,
/// reporting each observed state, or with `distinct` only the states that
/// differ from the previously reported one.
pub struct WatchPoll {
    start_ms: u64,
    duration_ms: u64,
    interval_ms: u64,
    distinct: bool,
    last: Option<Json>,
    count: usize,
}

/// The mathematical form of a [`WatchPoll`].
pub struct WatchV {
    /// When the watch began.
    pub start: nat,
    /// How long it samples.
    pub duration: nat,
    /// The pause between samples.
    pub interval: nat,
    /// Whether only changes are reported.
    pub distinct: bool,
    /// The last reported state.
    pub last: Option<JsonV>,
    /// How many states were reported.
    pub count: nat,
}

impl View for WatchPoll {
    type V = WatchV;

    closed spec fn view(&self) -> WatchV {
        WatchV {
            start: self.start_ms as nat,
            duration: self.duration_ms as nat,
            interval: self.interval_ms as nat,
            distinct: self.distinct,
            last: match self.last {
                Some(j) => Some(j@),
                None => None,
            },
            count: self.count as nat,
        }
    }
}

/// Whether a read `v` is reported: every read without `distinct`, else only
/// one that differs from the last reported state.
pub open spec fn reports(w: WatchV, v: JsonV) -> bool {
    !w.distinct || w.last != Some(v)
}

impl WatchPoll {
    /// A watch that begins at `start_ms`.
    pub fn new(start_ms: u64, duration_ms: u64, interval_ms: u64, distinct: bool) -> (r: Self)
        ensures
            r@ == (WatchV {
                start: start_ms as nat,
                duration: duration_ms as nat,
                interval: interval_ms as nat,
                distinct,
                last: None,
                count: 0,
            }),
    {
        WatchPoll { start_ms, duration_ms, interval_ms, distinct, last: None, count: 0 }
    }

    /// How many states have been reported.
    pub fn count(&self) -> (r: usize)
        ensures
            r == self@.count,
    {
        self.count
    }

    /// Take one read (`None` when the seam is not readable) at `now_ms`: report
    /// it if it counts, and go on sleeping the interval until the duration has
    /// elapsed.
    pub fn observe(&mut self, now_ms: u64, sample: Option<Json>) -> (r: WatchStep)
        requires
            old(self)@.count < usize::MAX,
        ensures
            ({
                let w = old(self)@;
                let reported = sample matches Some(v) && reports(w, v@);
                &&& reported ==> (r.emit matches Some((t, e)) && e@ == sample->0@ && t == (
                if now_ms >= w.start {
                    now_ms - w.start
                } else {
                    0
                }))
                &&& !reported ==> r.emit is None
                &&& final(self)@.count == if reported {
                    w.count + 1
                } else {
                    w.count
                }
                &&& final(self)@.last == if reported {
                    Some(sample->0@)
                } else {
                    w.last
                }
                &&& (r.sleep_ms is None <==> elapsed(now_ms as nat, w.start, w.duration))
                &&& (r.sleep_ms matches Some(ms) ==> ms == w.interval)
                &&& final(self)@.start == w.start && final(self)@.duration == w.duration
                &&& final(self)@.interval == w.interval && final(self)@.distinct == w.distinct
            }),
    {
        let t = if now_ms >= self.start_ms {
            now_ms - self.start_ms
        } else {
            0
        };
        let emit = match sample {
            Some(v) => {
                let fresh = if !self.distinct {
                    true
                } else {
                    match &self.last {
                        Some(l) => !json_equal(l, &v),
                        None => true,
                    }
                };
                if fresh {
                    let copy = crate::json::duplicate(&v);
                    self.last = Some(v);
                    self.count = self.count + 1;
                    Some((t, copy))
                } else {
                    None
                }
            },
            None => None,
        };
        let done = (now_ms as u128) >= (self.start_ms as u128) + (self.duration_ms as u128)
            || now_ms == u64::MAX;
        WatchStep {
            emit,
            sleep_ms: if done {
                None
            } else {
                Some(self.interval_ms)
            },
        }
    }
}

} // verus!
