//! An in-process test harness: drive a terminal-UI model directly, without
//! spawning a process or attaching a multiplexer.
//!
//! The out-of-process driver (a [`ScriptRun`] over a [`PaneBackend`]) is the
//! integration shape: it presses real keybindings into a real terminal and
//! reads the JSON seam a running program writes. This harness is its
//! unit-test complement: construct a model, feed it keys, and assert over the
//! same seam with the same condition grammar, all in one process.
//!
//! It is a thin adapter, not a second engine: [`Harness::run`] drives the same
//! [`ScriptRun`] state machine with an in-process backend whose `send_keys`
//! applies keys straight to the model and whose seam reads
//! [`DumpState::dump_state`]. Time is virtual: a pause advances the run's
//! clock by its length (at least a millisecond) without waiting, so a
//! `wait-until` that never holds times out at once. There is no settling
//! (the model updates the instant a key is applied), a `capture` step yields
//! the empty string, and a `type --from-env` step reads the variable from the
//! environment the caller hands in.
use crate::backend::PaneBackend;
use crate::condition::{
    cond_path, describe_text, holds, observe, parse_cond, spec_text, Condition,
};
use crate::json::{Json, JsonV};
use crate::key::{parse_keys, parse_keys_spec, Key};
use crate::outcome::RunResult;
use crate::outcome::{FailureV, ResultV};
use crate::runner::{
    initial, reply_state, env_error, lemma_run_progresses, next, phase_rank, step_cond, step_kind, step_var, steps_left,
    wait_left, well_formed, ActionV, Phase, ReplyV, RunAction, RunOptions, RunReply, RunV,
    ScriptRun,
};
use crate::script::{parse_script, script_steps, step_views, SourceV, StepV};
use crate::text::{chars_of, push_str};
use vstd::prelude::*;

verus! {

/// A terminal UI that can report its current state as a JSON value.
///
/// Implement this on your app or model. The returned value is the single
/// source of truth a driver reads, so keep it machine-first: flat, stable keys
/// and enums rendered as strings, rather than a mirror of the screen layout.
pub trait DumpState {
    /// Snapshot the current state as a JSON value.
    fn dump_state(&self) -> Json;
}

/// A terminal-UI model that can be driven in-process by a [`Harness`].
///
/// Implement it on the same model that implements [`DumpState`]: the seam
/// reports state, and this trait says how the model consumes input.
pub trait InProcessUi: DumpState + Sized {
    /// Apply one logical key press to the model, mutating it in place.
    fn apply_key(&mut self, key: &Key);

    /// Apply literal text as a block: the paste transport, behind
    /// [`Harness::type_text`] and a scripted `type --paste` step. The default
    /// applies one [`Key::Char`] per character, exactly as per-key typing.
    fn apply_text(&mut self, text: &str)
        default_ensures
            exists|ms: Seq<Self>|
                {
                    &&& ms.len() == text@.len() + 1
                    &&& ms[0] == *old(self)
                    &&& ms.last() == *final(self)
                    &&& forall|i: int|
                        0 <= i < text@.len() ==> exists|mr: &mut Self|
                            mut_ref_current(mr) == #[trigger] ms[i] && mut_ref_future(mr) == ms[i
                                + 1] && call_ensures(Self::apply_key, (mr, &Key::Char(text@[i])), ())
                },
    {
        let cs = chars_of(text);
        let ghost mut ms: Seq<Self> = seq![*self];
        let mut i: usize = 0;
        while i < cs.len()
            invariant
                i <= cs@.len(),
                cs@ == text@,
                ms.len() == i + 1,
                ms[0] == *old(self),
                ms.last() == *self,
                forall|j: int|
                    0 <= j < i ==> exists|mr: &mut Self|
                        mut_ref_current(mr) == #[trigger] ms[j] && mut_ref_future(mr) == ms[j + 1]
                            && call_ensures(Self::apply_key, (mr, &Key::Char(text@[j])), ()),
            decreases cs@.len() - i,
        {
            let ghost before = *self;
            let k = Key::Char(cs[i]);
            self.apply_key(&k);
            proof {
                let ms0 = ms;
                ms = ms.push(*self);
                assert forall|j: int| 0 <= j < i + 1 implies exists|mr: &mut Self|
                    mut_ref_current(mr) == #[trigger] ms[j] && mut_ref_future(mr) == ms[j + 1]
                        && call_ensures(Self::apply_key, (mr, &Key::Char(text@[j])), ()) by {
                    if j < i {
                        assert(ms[j] == ms0[j] && ms[j + 1] == ms0[j + 1]);
                    } else {
                        assert(ms[j] == before && ms[j + 1] == *self);
                    }
                }
            }
            i = i + 1;
        }
    }
}

/// A [`PaneBackend`] that delivers input straight to an in-process model:
/// `send_keys` routes each key through [`InProcessUi::apply_key`], and
/// `paste_text` routes a block through [`InProcessUi::apply_text`]. `capture`
/// returns the empty string (there is no rendered screen; the seam is the
/// truth). It never fails.
pub struct InProcessBackend<M: InProcessUi> {
    model: M,
    calls: Ghost<Seq<ModelCall<M>>>,
}

/// What a call on an in-process model was.
pub enum Call {
    /// A key handed to [`InProcessUi::apply_key`].
    Key(Key),
    /// A block of text handed to [`InProcessUi::apply_text`].
    Text(Seq<char>),
    /// A read of the seam through [`DumpState::dump_state`], with the value
    /// it returned.
    Read(JsonV),
}

/// A call on an in-process model, with the model as it stood before and
/// after the call.
pub struct ModelCall<M> {
    /// What was called.
    pub call: Call,
    /// The model before the call.
    pub before: M,
    /// The model after the call.
    pub after: M,
}

/// The calls that send `keys`, one key at a time.
pub open spec fn key_calls(keys: Seq<Key>) -> Seq<Call> {
    keys.map_values(|k: Key| Call::Key(k))
}

/// A read in the log is one the model's own [`DumpState::dump_state`] made:
/// it returned the logged seam on the model as it stood, leaving it as it
/// was. (A key or text call is tied to the model's `apply_key` or
/// `apply_text` in the contracts of the functions that make it.)
pub open spec fn read_made<M: InProcessUi>(mc: ModelCall<M>) -> bool {
    mc.call matches Call::Read(v) ==> mc.after == mc.before && exists|j: Json|
        j@ == v && call_ensures(M::dump_state, (&mc.before,), j)
}

/// The calls `cs` were made one after another on a model that stood at `m0`
/// before the first and stands at `m1` after the last, each read being one
/// the model made.
pub open spec fn made_in_turn<M: InProcessUi>(m0: M, cs: Seq<ModelCall<M>>, m1: M) -> bool
    decreases cs.len(),
{
    if cs.len() == 0 {
        m0 == m1
    } else {
        &&& made_in_turn(m0, cs.drop_last(), cs.last().before)
        &&& read_made(cs.last())
        &&& cs.last().after == m1
    }
}

/// What the calls `cs` were, in order.
pub open spec fn called<M>(cs: Seq<ModelCall<M>>) -> Seq<Call> {
    cs.map_values(|c: ModelCall<M>| c.call)
}

/// The log `after` is the log `before` followed by the calls `what`, made in
/// turn on a model they took from `m0` to `m1`.
pub open spec fn logged<M: InProcessUi>(
    before: Seq<ModelCall<M>>,
    after: Seq<ModelCall<M>>,
    what: Seq<Call>,
    m0: M,
    m1: M,
) -> bool {
    &&& after.len() == before.len() + what.len()
    &&& after.take(before.len() as int) == before
    &&& called(after.skip(before.len() as int)) == what
    &&& made_in_turn(m0, after.skip(before.len() as int), m1)
}

/// Nothing called leaves the log and the model as they were.
pub proof fn lemma_logged_nothing<M: InProcessUi>(log: Seq<ModelCall<M>>, m: M)
    ensures
        logged(log, log, Seq::empty(), m, m),
{
    assert(log.take(log.len() as int) =~= log);
    assert(log.skip(log.len() as int) =~= Seq::<ModelCall<M>>::empty());
    assert(called(log.skip(log.len() as int)) =~= Seq::<Call>::empty());
}

/// A call made on the model as the log left it extends the log by that call.
pub proof fn lemma_logged_push<M: InProcessUi>(
    before: Seq<ModelCall<M>>,
    after: Seq<ModelCall<M>>,
    what: Seq<Call>,
    m0: M,
    m1: M,
    c: ModelCall<M>,
)
    requires
        logged(before, after, what, m0, m1),
        read_made(c),
        c.before == m1,
    ensures
        logged(before, after.push(c), what.push(c.call), m0, c.after),
{
    let n = before.len() as int;
    let a2 = after.push(c);
    assert(a2.take(n) =~= before);
    assert(a2.skip(n) =~= after.skip(n).push(c));
    assert(a2.skip(n).drop_last() =~= after.skip(n));
    assert(called(a2.skip(n)) =~= what.push(c.call));
}

proof fn lemma_made_in_turn_append<M: InProcessUi>(
    m0: M,
    a: Seq<ModelCall<M>>,
    m1: M,
    b: Seq<ModelCall<M>>,
    m2: M,
)
    requires
        made_in_turn(m0, a, m1),
        made_in_turn(m1, b, m2),
    ensures
        made_in_turn(m0, a + b, m2),
    decreases b.len(),
{
    if b.len() == 0 {
        assert(a + b =~= a);
    } else {
        lemma_made_in_turn_append(m0, a, m1, b.drop_last(), b.last().before);
        assert((a + b).drop_last() =~= a + b.drop_last());
        assert((a + b).last() == b.last());
    }
}

/// Logged calls followed by further logged calls are logged together.
pub proof fn lemma_logged_then<M: InProcessUi>(
    l0: Seq<ModelCall<M>>,
    l1: Seq<ModelCall<M>>,
    l2: Seq<ModelCall<M>>,
    w1: Seq<Call>,
    w2: Seq<Call>,
    m0: M,
    m1: M,
    m2: M,
)
    requires
        logged(l0, l1, w1, m0, m1),
        logged(l1, l2, w2, m1, m2),
    ensures
        logged(l0, l2, w1 + w2, m0, m2),
{
    let n0 = l0.len() as int;
    let n1 = l1.len() as int;
    assert(n0 <= n1 <= l2.len());
    assert forall|i: int| 0 <= i < n1 implies l2[i] == l1[i] by {
        assert(l2.take(n1)[i] == l1[i]);
    }
    assert forall|i: int| 0 <= i < n0 implies l1[i] == l0[i] by {
        assert(l1.take(n0)[i] == l0[i]);
    }
    assert(l2.take(n0) =~= l0);
    assert(l2.skip(n0) =~= l1.skip(n0) + l2.skip(n1));
    lemma_made_in_turn_append(m0, l1.skip(n0), m1, l2.skip(n1), m2);
    assert(called(l2.skip(n0)) =~= called(l1.skip(n0)) + called(l2.skip(n1)));
    assert(called(l2.skip(n0)) =~= w1 + w2);
}

/// Keys and text the model's own methods took in, logged after others it
/// took in, make a log of calls it took in throughout.
proof fn lemma_made_then<M: InProcessUi>(
    l0: Seq<ModelCall<M>>,
    l1: Seq<ModelCall<M>>,
    l2: Seq<ModelCall<M>>,
)
    requires
        l0.len() <= l1.len() <= l2.len(),
        l2.take(l1.len() as int) == l1,
        forall|i: int|
            l0.len() <= i < l1.len() && (#[trigger] l1[i]).call is Key ==> exists|mr: &mut M|
                mut_ref_current(mr) == l1[i].before && mut_ref_future(mr) == l1[i].after
                    && call_ensures(M::apply_key, (mr, &l1[i].call->Key_0), ()),
        forall|i: int|
            l0.len() <= i < l1.len() && (#[trigger] l1[i]).call is Text ==> exists|
                mr: &mut M,
                s: &str,
            |
                s@ == l1[i].call->Text_0 && mut_ref_current(mr) == l1[i].before
                    && mut_ref_future(mr) == l1[i].after && call_ensures(
                    M::apply_text,
                    (mr, s),
                    (),
                ),
        forall|i: int|
            l1.len() <= i < l2.len() && (#[trigger] l2[i]).call is Key ==> exists|mr: &mut M|
                mut_ref_current(mr) == l2[i].before && mut_ref_future(mr) == l2[i].after
                    && call_ensures(M::apply_key, (mr, &l2[i].call->Key_0), ()),
        forall|i: int|
            l1.len() <= i < l2.len() && (#[trigger] l2[i]).call is Text ==> exists|
                mr: &mut M,
                s: &str,
            |
                s@ == l2[i].call->Text_0 && mut_ref_current(mr) == l2[i].before
                    && mut_ref_future(mr) == l2[i].after && call_ensures(
                    M::apply_text,
                    (mr, s),
                    (),
                ),
    ensures
        forall|i: int|
            l0.len() <= i < l2.len() && (#[trigger] l2[i]).call is Key ==> exists|mr: &mut M|
                mut_ref_current(mr) == l2[i].before && mut_ref_future(mr) == l2[i].after
                    && call_ensures(M::apply_key, (mr, &l2[i].call->Key_0), ()),
        forall|i: int|
            l0.len() <= i < l2.len() && (#[trigger] l2[i]).call is Text ==> exists|
                mr: &mut M,
                s: &str,
            |
                s@ == l2[i].call->Text_0 && mut_ref_current(mr) == l2[i].before
                    && mut_ref_future(mr) == l2[i].after && call_ensures(
                    M::apply_text,
                    (mr, s),
                    (),
                ),
{
    assert forall|i: int| 0 <= i < l1.len() implies l2[i] == l1[i] by {
        assert(l2.take(l1.len() as int)[i] == l1[i]);
    }
}

impl<M: InProcessUi> InProcessBackend<M> {
    /// A backend over `model`, on which no call has been made yet.
    pub fn new(model: M) -> (r: Self)
        ensures
            r.inner() == model,
            r.calls() == Seq::<ModelCall<M>>::empty(),
    {
        InProcessBackend { model, calls: Ghost(Seq::empty()) }
    }

    /// The model.
    pub closed spec fn inner(&self) -> M {
        self.model
    }

    /// The calls made on the model through this backend, in order, each with
    /// the model before and after it. The functions that add to it say which
    /// of the model's methods made each one.
    pub closed spec fn calls(&self) -> Seq<ModelCall<M>> {
        self.calls@
    }

    /// Read the model's seam through [`DumpState::dump_state`].
    pub fn read_state(&mut self) -> (r: Json)
        ensures
            call_ensures(M::dump_state, (&old(self).inner(),), r),
            final(self).inner() == old(self).inner(),
            logged(
                old(self).calls(),
                final(self).calls(),
                seq![Call::Read(r@)],
                old(self).inner(),
                final(self).inner(),
            ),
            forall|i: int|
                old(self).calls().len() <= i < final(self).calls().len() && (#[trigger] final(self).calls()[i]).call is Key ==> exists|mr: &mut M|
                    mut_ref_current(mr) == final(self).calls()[i].before && mut_ref_future(mr) == final(self).calls()[i].after
                        && call_ensures(M::apply_key, (mr, &final(self).calls()[i].call->Key_0), ()),
            forall|i: int|
                old(self).calls().len() <= i < final(self).calls().len() && (#[trigger] final(self).calls()[i]).call is Text ==> exists|
                    mr: &mut M,
                    s: &str,
                |
                    s@ == final(self).calls()[i].call->Text_0 && mut_ref_current(mr) == final(self).calls()[i].before
                        && mut_ref_future(mr) == final(self).calls()[i].after && call_ensures(
                        M::apply_text,
                        (mr, s),
                        (),
                    ),
    {
        let r = self.model.dump_state();
        proof {
            let c = ModelCall { call: Call::Read(r@), before: self.model, after: self.model };
            assert(read_made(c));
            lemma_logged_nothing(self.calls@, self.model);
            lemma_logged_push(self.calls@, self.calls@, Seq::empty(), self.model, self.model, c);
            assert(Seq::<Call>::empty().push(c.call) =~= seq![Call::Read(r@)]);
            let l0 = self.calls@;
            self.calls@ = self.calls@.push(c);
            assert(self.calls@[l0.len() as int] == c);
        }
        r
    }

    /// Hand one key to the model's [`InProcessUi::apply_key`].
    fn press_one(&mut self, k: &Key)
        ensures
            exists|mr: &mut M|
                mut_ref_current(mr) == old(self).inner() && mut_ref_future(mr) == final(self).inner()
                    && call_ensures(M::apply_key, (mr, k), ()),
            final(self).calls() == old(self).calls().push(
                ModelCall { call: Call::Key(*k), before: old(self).inner(), after: final(self).inner() },
            ),
    {
        let ghost before = self.model;
        self.model.apply_key(k);
        proof {
            self.calls@ = self.calls@.push(
                ModelCall { call: Call::Key(*k), before: before, after: self.model },
            );
        }
    }

    /// Borrow the model.
    pub fn model(&self) -> (r: &M)
        ensures
            *r == self.inner(),
    {
        &self.model
    }

    /// Give back the model.
    pub fn into_model(self) -> (r: M)
        ensures
            r == self.inner(),
    {
        self.model
    }
}

impl<M: InProcessUi> PaneBackend for InProcessBackend<M> {
    fn send_keys(&mut self, keys: &[Key]) -> (r: Result<(), String>)
        ensures
            r is Ok,
            logged(
                old(self).calls(),
                final(self).calls(),
                key_calls(keys@),
                old(self).inner(),
                final(self).inner(),
            ),
            forall|i: int|
                old(self).calls().len() <= i < final(self).calls().len() && (#[trigger] final(self).calls()[i]).call is Key ==> exists|mr: &mut M|
                    mut_ref_current(mr) == final(self).calls()[i].before && mut_ref_future(mr) == final(self).calls()[i].after
                        && call_ensures(M::apply_key, (mr, &final(self).calls()[i].call->Key_0), ()),
            forall|i: int|
                old(self).calls().len() <= i < final(self).calls().len() && (#[trigger] final(self).calls()[i]).call is Text ==> exists|
                    mr: &mut M,
                    s: &str,
                |
                    s@ == final(self).calls()[i].call->Text_0 && mut_ref_current(mr) == final(self).calls()[i].before
                        && mut_ref_future(mr) == final(self).calls()[i].after && call_ensures(
                        M::apply_text,
                        (mr, s),
                        (),
                    ),
    {
        let ghost d0 = self.calls@;
        let ghost m0 = self.model;
        proof {
            lemma_logged_nothing(d0, m0);
            assert(key_calls(keys@.take(0)) =~= Seq::<Call>::empty());
        }
        let mut i: usize = 0;
        while i < keys.len()
            invariant
                i <= keys@.len(),
                logged(d0, self.calls@, key_calls(keys@.take(i as int)), m0, self.model),
                forall|i: int|
                    d0.len() <= i < self.calls@.len() && (#[trigger] self.calls@[i]).call is Key ==> exists|mr: &mut M|
                        mut_ref_current(mr) == self.calls@[i].before && mut_ref_future(mr) == self.calls@[i].after
                            && call_ensures(M::apply_key, (mr, &self.calls@[i].call->Key_0), ()),
                forall|i: int|
                    d0.len() <= i < self.calls@.len() && (#[trigger] self.calls@[i]).call is Text ==> exists|
                        mr: &mut M,
                        s: &str,
                    |
                        s@ == self.calls@[i].call->Text_0 && mut_ref_current(mr) == self.calls@[i].before
                            && mut_ref_future(mr) == self.calls@[i].after && call_ensures(
                            M::apply_text,
                            (mr, s),
                            (),
                        ),
            decreases keys@.len() - i,
        {
            let ghost l1 = self.calls@;
            let ghost m1 = self.model;
            self.press_one(&keys[i]);
            proof {
                let c = ModelCall { call: Call::Key(keys@[i as int]), before: m1, after: self.model };
                lemma_logged_push(d0, l1, key_calls(keys@.take(i as int)), m0, m1, c);
                assert forall|j: int| 0 <= j < l1.len() implies self.calls@[j] == l1[j] by {}
                assert(self.calls@[l1.len() as int] == c);
                assert(key_calls(keys@.take(i + 1)) =~= key_calls(keys@.take(i as int)).push(
                    Call::Key(keys@[i as int]),
                ));
            }
            i = i + 1;
        }
        assert(keys@.take(keys@.len() as int) =~= keys@);
        Ok(())
    }

    fn capture(&mut self) -> (r: Result<String, String>)
        ensures
            r matches Ok(t) && t@.len() == 0,
            *final(self) == *old(self),
    {
        Ok(String::new())
    }

    fn paste_text(&mut self, text: &str) -> (r: Result<(), String>)
        ensures
            r is Ok,
            logged(
                old(self).calls(),
                final(self).calls(),
                seq![Call::Text(text@)],
                old(self).inner(),
                final(self).inner(),
            ),
            forall|i: int|
                old(self).calls().len() <= i < final(self).calls().len() && (#[trigger] final(self).calls()[i]).call is Key ==> exists|mr: &mut M|
                    mut_ref_current(mr) == final(self).calls()[i].before && mut_ref_future(mr) == final(self).calls()[i].after
                        && call_ensures(M::apply_key, (mr, &final(self).calls()[i].call->Key_0), ()),
            forall|i: int|
                old(self).calls().len() <= i < final(self).calls().len() && (#[trigger] final(self).calls()[i]).call is Text ==> exists|
                    mr: &mut M,
                    s: &str,
                |
                    s@ == final(self).calls()[i].call->Text_0 && mut_ref_current(mr) == final(self).calls()[i].before
                        && mut_ref_future(mr) == final(self).calls()[i].after && call_ensures(
                        M::apply_text,
                        (mr, s),
                        (),
                    ),
    {
        let ghost before = self.model;
        self.model.apply_text(text);
        proof {
            let c = ModelCall { call: Call::Text(text@), before: before, after: self.model };
            lemma_logged_nothing(self.calls@, before);
            lemma_logged_push(self.calls@, self.calls@, Seq::empty(), before, before, c);
            assert(Seq::<Call>::empty().push(c.call) =~= seq![Call::Text(text@)]);
            let l0 = self.calls@;
            self.calls@ = self.calls@.push(c);
            assert(self.calls@[l0.len() as int] == c);
        }
        Ok(())
    }
}

/// The message a failed in-process assertion carries: the condition and what
/// its path held, as a failing `assert` step explains it.
pub open spec fn miss_text(c: crate::condition::CondV, state: JsonV) -> Seq<char> {
    "assert "@ + spec_text(c) + " did not hold ("@ + describe_text(
        observe(state, cond_path(c)),
        cond_path(c),
    ) + ")"@
}

/// Check the condition `spec` against `state`: `Ok(())` when it holds, else
/// an error naming the condition and what its path held. A spec that does not
/// parse is an error too.
pub fn check_condition(spec: &str, state: &Json) -> (r: Result<(), String>)
    ensures
        parse_cond(spec@) is None ==> r is Err,
        parse_cond(spec@) matches Some(c) ==> {
            &&& (r is Ok <==> holds(c, state@))
            &&& (r matches Err(e) ==> e@ == miss_text(c, state@))
        },
{
    let cond = match Condition::parse(spec) {
        Ok(c) => c,
        Err(e) => return Err(e),
    };
    if cond.eval(state) {
        Ok(())
    } else {
        let mut m = String::new();
        push_str(&mut m, "assert ");
        let t = cond.to_spec();
        push_str(&mut m, t.as_str());
        push_str(&mut m, " did not hold (");
        let d = cond.observed(state).describe(cond.path());
        push_str(&mut m, d.as_str());
        push_str(&mut m, ")");
        Err(m)
    }
}

/// The reply a well-behaved driver gives while a run awaits `p`: the kind the
/// phase asks for, with delivery and capture succeeding.
pub open spec fn answers(p: Phase, r: ReplyV) -> bool {
    match p {
        Phase::Idle => r is Start,
        Phase::Env => r is Env,
        Phase::Before | Phase::SettleProbe | Phase::AssertProbe | Phase::WaitProbe
        | Phase::WaitFinal => r is State,
        Phase::Send => r matches ReplyV::Done(Ok(_)),
        Phase::SettleSleep | Phase::Sleep | Phase::WaitSleep => r is Slept,
        Phase::Capture => r matches ReplyV::Screen(Ok(_)),
        Phase::EmitAck | Phase::EventAck => r is Ack,
        Phase::Done => true,
    }
}

/// A driver that answers every action as asked and never fails to deliver
/// sees a run end in error only when a secret's environment variable is
/// unset.
pub proof fn lemma_honest_driver_errs_only_on_env(
    s: crate::runner::RunV,
    now: nat,
    reply: ReplyV,
)
    requires
        well_formed(s),
        answers(s.phase, reply),
        s.phase != Phase::Done,
    ensures
        crate::runner::next(s, now, reply).1 matches crate::runner::ActionV::Finish(Err(_))
            ==> s.phase == Phase::Env && reply == ReplyV::Env(None),
        crate::runner::next(s, now, reply).0.steps == s.steps,
{
}

/// The value of `var` among `env`'s pairs (the first pair that names it).
pub open spec fn env_lookup(env: Seq<(Seq<char>, Seq<char>)>, var: Seq<char>) -> Option<Seq<char>>
    decreases env.len(),
{
    if env.len() == 0 {
        None
    } else if env[0].0 == var {
        Some(env[0].1)
    } else {
        env_lookup(env.drop_first(), var)
    }
}

/// The pairs of an environment, as characters.
pub open spec fn env_view(env: Seq<(String, String)>) -> Seq<(Seq<char>, Seq<char>)> {
    env.map_values(|p: (String, String)| (p.0@, p.1@))
}

fn lookup_env(env: &Vec<(String, String)>, var: &str) -> (r: Option<String>)
    ensures
        match r {
            Some(v) => env_lookup(env_view(env@), var@) == Some(v@),
            None => env_lookup(env_view(env@), var@) is None,
        },
{
    let vc = chars_of(var);
    let mut i: usize = 0;
    assert(env_view(env@).skip(0) =~= env_view(env@));
    while i < env.len()
        invariant
            i <= env@.len(),
            vc@ == var@,
            env_lookup(env_view(env@), var@) == env_lookup(env_view(env@).skip(i as int), var@),
        decreases env@.len() - i,
    {
        assert(env_view(env@).skip(i as int).drop_first() =~= env_view(env@).skip(i + 1));
        if crate::key::eq_str(&vc, env[i].0.as_str()) {
            let mut v = String::new();
            push_str(&mut v, env[i].1.as_str());
            assert(v@ =~= env[i as int].1@);
            assert(env_view(env@).skip(i as int)[0] == (env@[i as int].0@, env@[i as int].1@));
            return Some(v);
        }
        assert(env_view(env@).skip(i as int)[0] == (env@[i as int].0@, env@[i as int].1@));
        i = i + 1;
    }
    assert(env_view(env@).skip(i as int) =~= Seq::<(Seq<char>, Seq<char>)>::empty());
    None
}

/// A run's clock after a pause of `ms` milliseconds at `now`: a pause of at
/// least one millisecond, capped at the clock's limit.
pub open spec fn advance_spec(now: nat, ms: nat) -> nat {
    let step: nat = if ms == 0 {
        1
    } else {
        ms
    };
    if now + step >= u64::MAX {
        u64::MAX as nat
    } else {
        now + step
    }
}

/// A run's clock after a pause of `ms` milliseconds: at least one
/// millisecond later, and no later than the clock's limit.
fn advance(now: u64, ms: u128) -> (r: u64)
    ensures
        r == advance_spec(now as nat, ms as nat),
        r >= now + 1 || r == u64::MAX,
        r >= now,
{
    let step: u128 = if ms == 0 {
        1
    } else {
        ms
    };
    if step >= (u64::MAX - now) as u128 {
        u64::MAX
    } else {
        now + (step as u64)
    }
}

/// A step that types a secret from the environment.
pub open spec fn reads_env(st: StepV) -> bool {
    st matches StepV::Type { source: SourceV::FromEnv(_), .. }
}

/// A step that types a secret whose variable `env` does not hold.
pub open spec fn missing_env(st: StepV, env: Seq<(Seq<char>, Seq<char>)>) -> bool {
    st matches StepV::Type { source: SourceV::FromEnv(v), .. } && env_lookup(env, v) is None
}

/// A step that checks a condition.
pub open spec fn is_condition(st: StepV) -> bool {
    st is Assert || st is WaitUntil
}

/// `f` is the failure of step `st`, the `k`-th (0-based) of its script.
pub open spec fn fails_at(f: FailureV, st: StepV, k: int) -> bool {
    &&& f.step == k + 1
    &&& is_condition(st)
    &&& f.kind == step_kind(st)
    &&& f.cond == spec_text(step_cond(st))
}

/// How an in-process run of `steps` under `env` may end: with the error of the
/// first step whose secret `env` lacks; with the failure of a condition step
/// that no such step precedes; or passing, when no step lacks its secret.
pub open spec fn in_process_outcome(
    res: Result<ResultV, Seq<char>>,
    steps: Seq<StepV>,
    env: Seq<(Seq<char>, Seq<char>)>,
) -> bool {
    match res {
        Err(e) => exists|k: int|
            0 <= k < steps.len() && #[trigger] missing_env(steps[k], env) && (forall|i: int|
                0 <= i < k ==> !missing_env(steps[i], env)) && e == env_error(
                (k + 1) as nat,
                step_var(steps[k]),
            ),
        Ok(ResultV::Failed(f)) => exists|k: int|
            0 <= k < steps.len() && #[trigger] fails_at(f, steps[k], k) && (forall|i: int|
                0 <= i <= k ==> !missing_env(steps[i], env)),
        Ok(ResultV::Passed) => forall|i: int| 0 <= i < steps.len() ==> !missing_env(steps[i], env),
    }
}

/// The action a run standing at `s` has asked for.
pub open spec fn asks(s: RunV, a: ActionV) -> bool {
    match s.phase {
        Phase::Env => a == ActionV::ReadEnv(step_var(s.steps[s.idx as int])),
        Phase::Before | Phase::SettleProbe | Phase::AssertProbe | Phase::WaitProbe
        | Phase::WaitFinal => a is Probe,
        Phase::Send => a is SendKeys || a is Paste,
        Phase::SettleSleep | Phase::Sleep | Phase::WaitSleep => a is Sleep,
        Phase::Capture => a is Capture,
        Phase::EmitAck => a is Emit,
        Phase::EventAck => a is Event,
        Phase::Idle => false,
        Phase::Done => a is Finish,
    }
}

/// What holds of an in-process run between replies, apart from the reply.
pub open spec fn in_process_state(s: RunV, env: Seq<(Seq<char>, Seq<char>)>) -> bool {
    &&& well_formed(s)
    &&& s.phase != Phase::Done
    &&& forall|i: int| 0 <= i < s.idx ==> !missing_env(#[trigger] s.steps[i], env)
    &&& s.phase != Phase::Idle && s.phase != Phase::Env ==> !missing_env(s.steps[s.idx as int], env)
    &&& s.pending matches Some(f) ==> s.phase == Phase::EventAck && fails_at(
        f,
        s.steps[s.idx as int],
        s.idx as int,
    )
}

/// The reply an in-process driver gives: as asked, and an environment
/// variable as `env` holds it.
pub open spec fn in_process_reply(s: RunV, reply: ReplyV, env: Seq<(Seq<char>, Seq<char>)>) -> bool {
    &&& answers(s.phase, reply)
    &&& s.phase == Phase::Env ==> reply == ReplyV::Env(
        env_lookup(env, step_var(s.steps[s.idx as int])),
    )
}

/// Each transition of an in-process run keeps its state, asks for what its
/// new phase awaits, and, when it ends the run, ends it as
/// [`in_process_outcome`] says.
pub proof fn lemma_in_process_step(
    s: RunV,
    now: nat,
    reply: ReplyV,
    env: Seq<(Seq<char>, Seq<char>)>,
)
    requires
        in_process_state(s, env),
        in_process_reply(s, reply, env),
    ensures
        next(s, now, reply).0.steps == s.steps,
        next(s, now, reply).1 matches ActionV::Finish(res) ==> in_process_outcome(res, s.steps, env),
        !(next(s, now, reply).1 is Finish) ==> in_process_state(next(s, now, reply).0, env)
            && asks(next(s, now, reply).0, next(s, now, reply).1),
{
    let (s2, a) = next(s, now, reply);
    let k = s.idx as int;
    match a {
        ActionV::Finish(Err(e)) => {
            assert(missing_env(s.steps[k], env));
        },
        ActionV::Finish(Ok(ResultV::Failed(f))) => {
            assert(fails_at(f, s.steps[k], k));
        },
        _ => {},
    }
}

/// One round of an in-process run: the runner's state, the virtual clock,
/// and the reply about to be handed to the runner.
pub struct Round {
    /// The runner's state.
    pub run: RunV,
    /// The virtual clock, in milliseconds.
    pub now: nat,
    /// The reply to the runner's previous action.
    pub reply: ReplyV,
}

/// The action the runner takes in a round.
pub open spec fn round_action(t: Round) -> ActionV {
    next(t.run, t.now, t.reply).1
}

/// The virtual clock after the driver performs `a` at `now`: only a pause
/// moves it.
pub open spec fn clock_after(a: ActionV, now: nat) -> nat {
    match a {
        ActionV::Sleep(ms) => advance_spec(now, ms),
        _ => now,
    }
}

/// How an in-process driver answers `a`: a probe with a seam it read,
/// delivery as done, a capture as empty, a variable as `env` holds it, and
/// anything else with its acknowledgement. The end of the run has no answer.
pub open spec fn answers_in_process(
    a: ActionV,
    reply: ReplyV,
    env: Seq<(Seq<char>, Seq<char>)>,
) -> bool {
    match a {
        ActionV::Probe => reply matches ReplyV::State(Some(_)),
        ActionV::SendKeys(_) => reply == ReplyV::Done(Ok(())),
        ActionV::Paste(_) => reply == ReplyV::Done(Ok(())),
        ActionV::Capture => reply == ReplyV::Screen(Ok(Seq::<char>::empty())),
        ActionV::ReadEnv(v) => reply == ReplyV::Env(env_lookup(env, v)),
        ActionV::Sleep(_) => reply == ReplyV::Slept,
        ActionV::Emit(_) => reply == ReplyV::Ack,
        ActionV::Event(_) => reply == ReplyV::Ack,
        ActionV::Finish(_) => false,
    }
}

/// Round `t2` follows round `t`: the runner's next state, the clock after its
/// action, and the in-process answer to that action.
pub open spec fn follows(t: Round, t2: Round, env: Seq<(Seq<char>, Seq<char>)>) -> bool {
    let (s2, a) = next(t.run, t.now, t.reply);
    &&& t2.run == s2
    &&& t2.now == clock_after(a, t.now)
    &&& answers_in_process(a, t2.reply, env)
}

/// The calls on the model that performing `a` makes, given the reply that
/// answers it: each key, the pasted text, or the read whose seam is the reply.
pub open spec fn round_calls(a: ActionV, reply: ReplyV) -> Seq<Call> {
    match a {
        ActionV::SendKeys(ks) => key_calls(ks),
        ActionV::Paste(t) => seq![Call::Text(t)],
        ActionV::Probe => seq![Call::Read(reply_state(reply)->0)],
        _ => seq![],
    }
}

/// The calls on the model made by the rounds of `tr`, each round but the last
/// answered by the reply of the next.
pub open spec fn trace_calls(tr: Seq<Round>) -> Seq<Call>
    decreases tr.len(),
{
    if tr.len() < 2 {
        seq![]
    } else {
        trace_calls(tr.drop_last()) + round_calls(round_action(tr[tr.len() - 2]), tr.last().reply)
    }
}

/// `tr` is an in-process run of `steps` under `env` so far: it starts the
/// runner without settling, and each round follows the one before.
pub open spec fn in_process_trace(
    tr: Seq<Round>,
    steps: Seq<StepV>,
    env: Seq<(Seq<char>, Seq<char>)>,
) -> bool {
    &&& tr.len() > 0
    &&& tr[0] == Round { run: initial(steps, None), now: 0, reply: ReplyV::Start }
    &&& forall|k: int| 0 <= k < tr.len() - 1 ==> follows(#[trigger] tr[k], tr[k + 1], env)
}

/// The runner, driven in-process over `steps` under `env`, ends with `res`,
/// and the calls it makes take the log from `before` to `after` and the model
/// from `m0` to `m1`: every probe is answered with the seam the model's
/// `dump_state` returned then, every key and text delivered is handed to the
/// model's `apply_key` and `apply_text`, in order, and nothing else is.
pub open spec fn in_process_run<M: InProcessUi>(
    steps: Seq<StepV>,
    env: Seq<(Seq<char>, Seq<char>)>,
    res: Result<ResultV, Seq<char>>,
    before: Seq<ModelCall<M>>,
    after: Seq<ModelCall<M>>,
    m0: M,
    m1: M,
) -> bool {
    exists|tr: Seq<Round>|
        {
            &&& in_process_trace(tr, steps, env)
            &&& #[trigger] round_action(tr.last()) == ActionV::Finish(res)
            &&& logged(before, after, trace_calls(tr), m0, m1)
        }
}

/// A round that follows the last one extends a trace, and adds the calls the
/// last round's action made.
proof fn lemma_trace_push(
    tr: Seq<Round>,
    t2: Round,
    steps: Seq<StepV>,
    env: Seq<(Seq<char>, Seq<char>)>,
)
    requires
        in_process_trace(tr, steps, env),
        follows(tr.last(), t2, env),
    ensures
        in_process_trace(tr.push(t2), steps, env),
        trace_calls(tr.push(t2)) == trace_calls(tr) + round_calls(round_action(tr.last()), t2.reply),
{
    let tr2 = tr.push(t2);
    assert(tr2.drop_last() =~= tr);
    assert(tr2[tr2.len() - 2] == tr.last());
    assert(tr2[0] == tr[0]);
    assert forall|k: int| 0 <= k < tr2.len() - 1 implies follows(#[trigger] tr2[k], tr2[k + 1], env) by {
        if k < tr.len() - 1 {
            assert(tr2[k] == tr[k] && tr2[k + 1] == tr[k + 1]);
        } else {
            assert(tr2[k] == tr.last() && tr2[k + 1] == t2);
        }
    }
}

impl<M: InProcessUi> InProcessBackend<M> {
    /// Perform one action of a run in-process, at virtual time `now`: read the
    /// model's seam for a probe, hand keys and text to the model, give an
    /// empty capture, look a variable up in `env`, and advance the clock for a
    /// pause. Returns the reply and the clock after.
    fn perform(&mut self, a: RunAction, now: u64, env: &Vec<(String, String)>) -> (out: (
        RunReply,
        u64,
    ))
        requires
            !(a@ is Finish),
        ensures
            answers_in_process(a@, out.0@, env_view(env@)),
            out.1 as nat == clock_after(a@, now as nat),
            logged(
                old(self).calls(),
                final(self).calls(),
                round_calls(a@, out.0@),
                old(self).inner(),
                final(self).inner(),
            ),
            forall|i: int|
                old(self).calls().len() <= i < final(self).calls().len() && (#[trigger] final(self).calls()[i]).call is Key ==> exists|mr: &mut M|
                    mut_ref_current(mr) == final(self).calls()[i].before && mut_ref_future(mr) == final(self).calls()[i].after
                        && call_ensures(M::apply_key, (mr, &final(self).calls()[i].call->Key_0), ()),
            forall|i: int|
                old(self).calls().len() <= i < final(self).calls().len() && (#[trigger] final(self).calls()[i]).call is Text ==> exists|
                    mr: &mut M,
                    s: &str,
                |
                    s@ == final(self).calls()[i].call->Text_0 && mut_ref_current(mr) == final(self).calls()[i].before
                        && mut_ref_future(mr) == final(self).calls()[i].after && call_ensures(
                        M::apply_text,
                        (mr, s),
                        (),
                    ),
    {
        let ghost l0 = self.calls@;
        let ghost m0 = self.model;
        let ghost av = a@;
        let mut now = now;
        let reply = match a {
            RunAction::Probe => {
                let j = self.read_state();
                RunReply::State(Some(j))
            },
            RunAction::SendKeys(keys) => RunReply::Done(self.send_keys(keys.as_slice())),
            RunAction::Paste(t) => RunReply::Done(self.paste_text(t.as_str())),
            RunAction::Capture => {
                let c = self.capture();
                proof {
                    assert(c->Ok_0@ =~= Seq::<char>::empty());
                }
                RunReply::Screen(c)
            },
            RunAction::ReadEnv(var) => RunReply::Env(lookup_env(env, var.as_str())),
            RunAction::Sleep(ms) => {
                now = advance(now, ms);
                RunReply::Slept
            },
            _ => RunReply::Ack,
        };
        proof {
            if !(av is SendKeys || av is Paste || av is Probe) {
                lemma_logged_nothing(l0, m0);
                assert(round_calls(av, reply@) =~= Seq::<Call>::empty());
            }
        }
        (reply, now)
    }

    /// Run `steps` against the model, answering the runner in-process: the seam
    /// is the model's [`DumpState::dump_state`], keys and text go to the model,
    /// a capture is empty, an environment variable is looked up in `env`, and
    /// a pause advances the virtual clock. The run always ends; it ends in an
    /// error only when a step reads a variable `env` does not hold.
    #[verifier::rlimit(40)]
    pub fn run_steps(
        &mut self,
        steps: Vec<crate::script::Step>,
        env: &Vec<(String, String)>,
    ) -> (r: Result<RunResult, String>)
        ensures
            in_process_outcome(
                match r {
                    Ok(x) => Ok(x@),
                    Err(e) => Err(e@),
                },
                step_views(steps@),
                env_view(env@),
            ),
            r is Err ==> exists|i: int|
                0 <= i < steps@.len() && #[trigger] reads_env(steps@[i]@),
            in_process_run(
                step_views(steps@),
                env_view(env@),
                match r {
                    Ok(x) => Ok(x@),
                    Err(e) => Err(e@),
                },
                old(self).calls(),
                final(self).calls(),
                old(self).inner(),
                final(self).inner(),
            ),
            forall|i: int|
                old(self).calls().len() <= i < final(self).calls().len() && (#[trigger] final(self).calls()[i]).call is Key ==> exists|mr: &mut M|
                    mut_ref_current(mr) == final(self).calls()[i].before && mut_ref_future(mr) == final(self).calls()[i].after
                        && call_ensures(M::apply_key, (mr, &final(self).calls()[i].call->Key_0), ()),
            forall|i: int|
                old(self).calls().len() <= i < final(self).calls().len() && (#[trigger] final(self).calls()[i]).call is Text ==> exists|
                    mr: &mut M,
                    s: &str,
                |
                    s@ == final(self).calls()[i].call->Text_0 && mut_ref_current(mr) == final(self).calls()[i].before
                        && mut_ref_future(mr) == final(self).calls()[i].after && call_ensures(
                        M::apply_text,
                        (mr, s),
                        (),
                    ),
    {
        let ghost sv = step_views(steps@);
        let ghost ev = env_view(env@);
        let ghost c0 = self.calls@;
        let ghost m0 = self.model;
        proof {
            lemma_logged_nothing(c0, m0);
        }
        let mut run = ScriptRun::new(steps, &RunOptions::new());
        let mut now: u64 = 0;
        let mut reply = RunReply::Start;
        let ghost mut tr: Seq<Round> = seq![Round { run: run@, now: 0, reply: ReplyV::Start }];
        loop
            invariant
                well_formed(run@),
                run@.steps == sv,
                sv == step_views(steps@),
                ev == env_view(env@),
                in_process_state(run@, ev),
                in_process_reply(run@, reply@, ev),
                in_process_trace(tr, sv, ev),
                tr.last() == (Round { run: run@, now: now as nat, reply: reply@ }),
                logged(c0, self.calls@, trace_calls(tr), m0, self.model),
                c0 == old(self).calls(),
                m0 == old(self).inner(),
                forall|i: int|
                    c0.len() <= i < self.calls@.len() && (#[trigger] self.calls@[i]).call is Key ==> exists|mr: &mut M|
                        mut_ref_current(mr) == self.calls@[i].before && mut_ref_future(mr) == self.calls@[i].after
                            && call_ensures(M::apply_key, (mr, &self.calls@[i].call->Key_0), ()),
                forall|i: int|
                    c0.len() <= i < self.calls@.len() && (#[trigger] self.calls@[i]).call is Text ==> exists|
                        mr: &mut M,
                        s: &str,
                    |
                        s@ == self.calls@[i].call->Text_0 && mut_ref_current(mr) == self.calls@[i].before
                            && mut_ref_future(mr) == self.calls@[i].after && call_ensures(
                            M::apply_text,
                            (mr, s),
                            (),
                        ),
            decreases steps_left(run@), phase_rank(run@.phase), wait_left(run@, now as nat),
        {
            let ghost s0 = run@;
            let ghost r0 = reply@;
            let ghost now0 = now as nat;
            let ghost calls0 = self.calls@;
            let ghost ma = self.model;
            proof {
                lemma_in_process_step(s0, now0, r0, ev);
            }
            let a = run.resume(now, reply);
            let ghost av = a@;
            match a {
                RunAction::Finish(res) => {
                    proof {
                        if res is Err {
                            let k = choose|k: int|
                                0 <= k < sv.len() && #[trigger] missing_env(sv[k], ev) && (forall|
                                    i: int,
                                | 0 <= i < k ==> !missing_env(sv[i], ev)) && res->Err_0@
                                    == env_error((k + 1) as nat, step_var(sv[k]));
                            assert(sv[k] == steps@[k]@);
                            assert(reads_env(steps@[k]@));
                        }
                    }
                    proof {
                        assert(round_action(tr.last()) == av);
                        assert(av == ActionV::Finish(
                            match res {
                                Ok(x) => Ok(x@),
                                Err(e) => Err(e@),
                            },
                        ));
                        assert(in_process_trace(tr, sv, ev));
                        assert(in_process_run(
                            sv,
                            ev,
                            match res {
                                Ok(x) => Ok(x@),
                                Err(e) => Err(e@),
                            },
                            c0,
                            self.calls@,
                            m0,
                            self.model,
                        ));
                    }
                    return res;
                },
                other => {
                    let (rp, n) = self.perform(other, now, env);
                    reply = rp;
                    now = n;
                },
            }
            proof {
                assert(logged(calls0, self.calls@, round_calls(av, reply@), ma, self.model));
                lemma_made_then(c0, calls0, self.calls@);
                lemma_logged_then(
                    c0,
                    calls0,
                    self.calls@,
                    trace_calls(tr),
                    round_calls(av, reply@),
                    m0,
                    ma,
                    self.model,
                );
            }
            proof {
                lemma_run_progresses(s0, now0, r0, now as nat);
                let t = tr.last();
                let t2 = Round { run: run@, now: now as nat, reply: reply@ };
                assert(round_action(t) == av);
                assert(follows(t, t2, ev));
                lemma_trace_push(tr, t2, sv, ev);
                let tr2 = tr.push(t2);
                assert(trace_calls(tr2) == trace_calls(tr) + round_calls(av, reply@));
                tr = tr2;
            }
        }
    }
}

/// Drives an [`InProcessUi`] model with keys and scripts, asserting over its
/// [`DumpState`] seam.
pub struct Harness<M: InProcessUi> {
    backend: InProcessBackend<M>,
}

impl<M: InProcessUi> Harness<M> {
    /// The model the harness drives.
    pub closed spec fn inner(&self) -> M {
        self.backend.inner()
    }

    /// The calls made on the model through the harness's keys, text and
    /// runs, in order, each with the model before and after it. The
    /// functions that add to it say which of the model's methods made each
    /// one.
    pub closed spec fn calls(&self) -> Seq<ModelCall<M>> {
        self.backend.calls()
    }

    /// Wrap a fresh model in a harness.
    pub fn new(model: M) -> (r: Self)
        ensures
            r.inner() == model,
            r.calls() == Seq::<ModelCall<M>>::empty(),
    {
        Harness { backend: InProcessBackend::new(model) }
    }

    /// Borrow the underlying model, e.g. to read fields the seam does not
    /// expose.
    pub fn model(&self) -> (r: &M)
        ensures
            *r == self.inner(),
    {
        self.backend.model()
    }

    /// The current state seam, exactly what an assertion checks against:
    /// what the model's [`DumpState::dump_state`] returns.
    pub fn state(&self) -> (r: Json)
        ensures
            call_ensures(M::dump_state, (&self.inner(),), r),
    {
        self.backend.model.dump_state()
    }

    /// Press a key spec (`"Down Down Enter"`, `"C-c"`, `"2 Down"`) into the
    /// model. Returns the harness so presses chain. Fails, leaving the model
    /// untouched, only if the spec does not parse.
    pub fn press(&mut self, spec: &str) -> (r: Result<&mut Self, String>)
        ensures
            r is Ok <==> parse_keys_spec(spec@) is Some,
            r matches Ok(h) ==> logged(
                old(self).calls(),
                h.calls(),
                key_calls(parse_keys_spec(spec@)->0),
                old(self).inner(),
                h.inner(),
            ),
            r matches Ok(h) ==> *final(self) == *final(h),
            r is Err ==> *final(self) == *old(self),
            r matches Ok(h) ==> forall|i: int|
                old(self).calls().len() <= i < h.calls().len() && (#[trigger] h.calls()[i]).call is Key ==> exists|mr: &mut M|
                    mut_ref_current(mr) == h.calls()[i].before && mut_ref_future(mr) == h.calls()[i].after
                        && call_ensures(M::apply_key, (mr, &h.calls()[i].call->Key_0), ()),
            r matches Ok(h) ==> forall|i: int|
                old(self).calls().len() <= i < h.calls().len() && (#[trigger] h.calls()[i]).call is Text ==> exists|
                    mr: &mut M,
                    s: &str,
                |
                    s@ == h.calls()[i].call->Text_0 && mut_ref_current(mr) == h.calls()[i].before
                        && mut_ref_future(mr) == h.calls()[i].after && call_ensures(
                        M::apply_text,
                        (mr, s),
                        (),
                    ),
    {
        let keys = match parse_keys(spec) {
            Ok(k) => k,
            Err(e) => return Err(e),
        };
        let _ = self.backend.send_keys(keys.as_slice());
        Ok(self)
    }

    /// Type literal text into the model through [`InProcessUi::apply_text`].
    /// Returns the harness so calls chain.
    pub fn type_text(&mut self, text: &str) -> (r: &mut Self)
        ensures
            logged(
                old(self).calls(),
                r.calls(),
                seq![Call::Text(text@)],
                old(self).inner(),
                r.inner(),
            ),
            *final(self) == *final(r),
            forall|i: int|
                old(self).calls().len() <= i < r.calls().len() && (#[trigger] r.calls()[i]).call is Key ==> exists|mr: &mut M|
                    mut_ref_current(mr) == r.calls()[i].before && mut_ref_future(mr) == r.calls()[i].after
                        && call_ensures(M::apply_key, (mr, &r.calls()[i].call->Key_0), ()),
            forall|i: int|
                old(self).calls().len() <= i < r.calls().len() && (#[trigger] r.calls()[i]).call is Text ==> exists|
                    mr: &mut M,
                    s: &str,
                |
                    s@ == r.calls()[i].call->Text_0 && mut_ref_current(mr) == r.calls()[i].before
                        && mut_ref_future(mr) == r.calls()[i].after && call_ensures(
                        M::apply_text,
                        (mr, s),
                        (),
                    ),
    {
        let _ = self.backend.paste_text(text);
        self
    }

    /// Check a condition spec (`"count=2"`, `"focus=fleet"`, `"n>=3"`) against
    /// the current seam: [`check_condition`] on the model's state.
    pub fn assert_holds(&self, spec: &str) -> (r: Result<(), String>)
        ensures
            parse_cond(spec@) is None ==> r is Err,
            parse_cond(spec@) matches Some(c) ==> exists|v: Json|
                {
                    &&& call_ensures(M::dump_state, (&self.inner(),), v)
                    &&& (r is Ok <==> holds(c, v@))
                    &&& (r matches Err(e) ==> e@ == miss_text(c, v@))
                },
    {
        let state = self.backend.model.dump_state();
        check_condition(spec, &state)
    }

    /// Run a whole script against the model, as [`Harness::run_with_env`] with
    /// an empty environment. To type secrets from the process environment,
    /// pass it to [`Harness::run_with_env`] (e.g. `std::env::vars().collect()`).
    pub fn run(&mut self, script: &str) -> (r: Result<RunResult, String>)
        ensures
            script_steps(script@) is None ==> r is Err,
            r is Err ==> script_steps(script@) is None || exists|i: int|
                0 <= i < script_steps(script@)->0.len() && #[trigger] reads_env(
                    script_steps(script@)->0[i],
                ),
            script_steps(script@) matches Some(ss) ==> in_process_outcome(
                match r {
                    Ok(x) => Ok(x@),
                    Err(e) => Err(e@),
                },
                ss,
                Seq::empty(),
            ),
            script_steps(script@) matches Some(ss) ==> in_process_run(
                ss,
                Seq::empty(),
                match r {
                    Ok(x) => Ok(x@),
                    Err(e) => Err(e@),
                },
                old(self).calls(),
                final(self).calls(),
                old(self).inner(),
                final(self).inner(),
            ),
            script_steps(script@) is None ==> *final(self) == *old(self),
            forall|i: int|
                old(self).calls().len() <= i < final(self).calls().len() && (#[trigger] final(self).calls()[i]).call is Key ==> exists|mr: &mut M|
                    mut_ref_current(mr) == final(self).calls()[i].before && mut_ref_future(mr) == final(self).calls()[i].after
                        && call_ensures(M::apply_key, (mr, &final(self).calls()[i].call->Key_0), ()),
            forall|i: int|
                old(self).calls().len() <= i < final(self).calls().len() && (#[trigger] final(self).calls()[i]).call is Text ==> exists|
                    mr: &mut M,
                    s: &str,
                |
                    s@ == final(self).calls()[i].call->Text_0 && mut_ref_current(mr) == final(self).calls()[i].before
                        && mut_ref_future(mr) == final(self).calls()[i].after && call_ensures(
                        M::apply_text,
                        (mr, s),
                        (),
                    ),
    {
        let env: Vec<(String, String)> = Vec::new();
        let r = self.run_with_env(script, &env);
        assert(env_view(env@) =~= Seq::empty());
        r
    }

    /// Run a whole script against the model on the same runner a live run
    /// uses, only in-process: presses, types, waits, asserts and captures
    /// behave as they do against a pane, with no settling, an empty capture,
    /// virtual time, and `type --from-env` variables looked up in `env`.
    /// Returns the same [`RunResult`] a live run would, so a script is
    /// portable between the harness and a live run. A script that does not
    /// parse is an error, and so is a secret whose variable `env` lacks.
    pub fn run_with_env(&mut self, script: &str, env: &Vec<(String, String)>) -> (r: Result<
        RunResult,
        String,
    >)
        ensures
            script_steps(script@) is None ==> r is Err,
            r is Err ==> script_steps(script@) is None || exists|i: int|
                0 <= i < script_steps(script@)->0.len() && #[trigger] reads_env(
                    script_steps(script@)->0[i],
                ),
            script_steps(script@) matches Some(ss) ==> in_process_outcome(
                match r {
                    Ok(x) => Ok(x@),
                    Err(e) => Err(e@),
                },
                ss,
                env_view(env@),
            ),
            script_steps(script@) matches Some(ss) ==> in_process_run(
                ss,
                env_view(env@),
                match r {
                    Ok(x) => Ok(x@),
                    Err(e) => Err(e@),
                },
                old(self).calls(),
                final(self).calls(),
                old(self).inner(),
                final(self).inner(),
            ),
            script_steps(script@) is None ==> *final(self) == *old(self),
            forall|i: int|
                old(self).calls().len() <= i < final(self).calls().len() && (#[trigger] final(self).calls()[i]).call is Key ==> exists|mr: &mut M|
                    mut_ref_current(mr) == final(self).calls()[i].before && mut_ref_future(mr) == final(self).calls()[i].after
                        && call_ensures(M::apply_key, (mr, &final(self).calls()[i].call->Key_0), ()),
            forall|i: int|
                old(self).calls().len() <= i < final(self).calls().len() && (#[trigger] final(self).calls()[i]).call is Text ==> exists|
                    mr: &mut M,
                    s: &str,
                |
                    s@ == final(self).calls()[i].call->Text_0 && mut_ref_current(mr) == final(self).calls()[i].before
                        && mut_ref_future(mr) == final(self).calls()[i].after && call_ensures(
                        M::apply_text,
                        (mr, s),
                        (),
                    ),
    {
        let steps = match parse_script(script) {
            Ok(s) => s,
            Err(e) => return Err(e),
        };
        let ghost sv = step_views(steps@);
        let r = self.backend.run_steps(steps, env);
        proof {
            if r is Err {
                let i = choose|i: int| 0 <= i < steps@.len() && #[trigger] reads_env(steps@[i]@);
                assert(sv[i] == steps@[i]@);
                assert(reads_env(sv[i]));
            }
        }
        r
    }

    /// Consume the harness and return the model, e.g. to inspect final state
    /// beyond the seam after a run.
    pub fn into_model(self) -> (r: M)
        ensures
            r == self.inner(),
    {
        self.backend.into_model()
    }
}

} // verus!
