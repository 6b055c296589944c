//! Terminal-host backends. A [`PaneBackend`] is the only host-specific part
//! of the driver: it sends keys into a running UI and captures its screen.
//! Everything above it (waiting, asserting, reading the JSON seam) is
//! backend-agnostic.
//!
//! The hosts here are driven by running their command-line tools. What those
//! invocations are is decided in this module: how a key sequence is cut into
//! `tmux send-keys` / `zellij action` calls, the argument vectors, the bytes a
//! GNU screen `stuff` injects, and the file names a screen dump goes to. The
//! program that owns the processes runs them.
use crate::key::{key_bytes, tmux_name, Key, TmuxKey, ZellijKey};
use crate::runner::{char_key, char_keys};
use crate::text::{chars_of, dec, lossy_string, push_char, push_dec, push_str, upper, utf8_lossy};
use vstd::utf8::{
    encode_scalar, encode_utf8, encode_utf8_decode_utf8, encode_utf8_valid_utf8, is_ascii_chars,
    is_ascii_chars_encode_utf8,
};
use vstd::prelude::*;

verus! {

/// A channel into one running terminal UI: press keys, read the screen.
pub trait PaneBackend {
    /// Send a sequence of logical key presses to the target pane, in order.
    fn send_keys(&mut self, keys: &[Key]) -> Result<(), String>;

    /// Capture the pane's currently visible text (best-effort; used only when
    /// no JSON seam is available).
    fn capture(&mut self) -> Result<String, String>;

    /// Deliver literal text to the pane as a block rather than key events.
    ///
    /// The default types it character by character. A host with a buffer
    /// transport (tmux) routes the text through it instead, so the value never
    /// appears in a command line; use it for secrets.
    fn paste_text(&mut self, text: &str) -> Result<(), String> {
        let keys = text_keys(text);
        self.send_keys(keys.as_slice())
    }
}

/// The keys that type `text` one character at a time.
pub fn text_keys(text: &str) -> (r: Vec<Key>)
    ensures
        r@ == char_keys(text@),
{
    let cs = chars_of(text);
    let mut out: Vec<Key> = Vec::new();
    let mut i: usize = 0;
    while i < cs.len()
        invariant
            i <= cs@.len(),
            cs@ == text@,
            out@ =~= char_keys(text@).take(i as int),
        decreases cs@.len() - i,
    {
        assert(char_keys(text@).take(i + 1) =~= char_keys(text@).take(i as int).push(
            char_key(cs@[i as int]),
        ));
        out.push(Key::Char(cs[i]));
        i = i + 1;
    }
    assert(char_keys(text@).take(cs@.len() as int) =~= char_keys(text@));
    out
}

// ---------------------------------------------------------------------------
// Cutting a key sequence into runs of characters and single named keys
// ---------------------------------------------------------------------------

/// A piece of a key sequence as a host receives it.
pub enum Piece {
    /// A run of literal characters, sent in one call.
    Run(Seq<char>),
    /// A named or control key, sent on its own.
    Single(Key),
}

/// The runs so far, with the open run of characters closed.
pub open spec fn close_run(p: Seq<Piece>, run: Seq<char>) -> Seq<Piece> {
    if run.len() == 0 {
        p
    } else {
        p.push(Piece::Run(run))
    }
}

/// Take one key: a character extends the open run; any other key closes it
/// and stands alone.
pub open spec fn piece_step(st: (Seq<Piece>, Seq<char>), k: Key) -> (Seq<Piece>, Seq<char>) {
    match k {
        Key::Char(c) => (st.0, st.1.push(c)),
        _ => (close_run(st.0, st.1).push(Piece::Single(k)), seq![]),
    }
}

/// The pieces and the open run after taking `keys` in order.
pub open spec fn pieces_fold(keys: Seq<Key>) -> (Seq<Piece>, Seq<char>)
    decreases keys.len(),
{
    if keys.len() == 0 {
        (seq![], seq![])
    } else {
        piece_step(pieces_fold(keys.drop_last()), keys.last())
    }
}

/// `keys` cut into maximal runs of characters and single other keys.
pub open spec fn pieces(keys: Seq<Key>) -> Seq<Piece> {
    close_run(pieces_fold(keys).0, pieces_fold(keys).1)
}

/// The keys a piece stands for.
pub open spec fn piece_keys(pc: Piece) -> Seq<Key> {
    match pc {
        Piece::Run(t) => char_keys(t),
        Piece::Single(k) => seq![k],
    }
}

/// The keys a sequence of pieces stands for, in order.
pub open spec fn pieces_keys(ps: Seq<Piece>) -> Seq<Key>
    decreases ps.len(),
{
    if ps.len() == 0 {
        seq![]
    } else {
        pieces_keys(ps.drop_last()) + piece_keys(ps.last())
    }
}

/// Every run is non-empty, every single key is not a character, and no two
/// runs are adjacent.
pub open spec fn well_cut(ps: Seq<Piece>) -> bool {
    &&& forall|i: int| 0 <= i < ps.len() ==> (#[trigger] ps[i] matches Piece::Run(t) ==> t.len() > 0)
    &&& forall|i: int| 0 <= i < ps.len() ==> (#[trigger] ps[i] matches Piece::Single(k) ==> !(k is Char))
    &&& forall|i: int| 0 <= i < ps.len() - 1 ==> #[trigger] ps[i] is Run ==> !(ps[i + 1] is Run)
}

proof fn lemma_char_keys_push(t: Seq<char>, c: char)
    ensures
        char_keys(t.push(c)) == char_keys(t).push(Key::Char(c)),
{
    assert(char_keys(t.push(c)) =~= char_keys(t).push(Key::Char(c)));
}

proof fn lemma_pieces_keys_push(ps: Seq<Piece>, pc: Piece)
    ensures
        pieces_keys(ps.push(pc)) == pieces_keys(ps) + piece_keys(pc),
{
    assert(ps.push(pc).drop_last() =~= ps);
}

proof fn lemma_fold_shape(keys: Seq<Key>)
    ensures
        pieces_keys(pieces_fold(keys).0) + char_keys(pieces_fold(keys).1) == keys,
        well_cut(pieces_fold(keys).0),
        pieces_fold(keys).1.len() > 0 ==> pieces_fold(keys).0.len() == 0 || !(
        pieces_fold(keys).0.last() is Run),
    decreases keys.len(),
{
    if keys.len() == 0 {
        assert(char_keys(Seq::<char>::empty()) =~= Seq::<Key>::empty());
        assert(pieces_keys(Seq::<Piece>::empty()) + Seq::<Key>::empty() =~= keys);
    } else {
        let init = keys.drop_last();
        let k = keys.last();
        lemma_fold_shape(init);
        let (p, run) = pieces_fold(init);
        assert(init.push(k) =~= keys);
        match k {
            Key::Char(c) => {
                lemma_char_keys_push(run, c);
                assert(pieces_keys(p) + char_keys(run.push(c)) =~= (pieces_keys(p) + char_keys(
                    run,
                )).push(k));
            },
            _ => {
                let q = close_run(p, run);
                if run.len() == 0 {
                    assert(char_keys(run) =~= Seq::<Key>::empty());
                    assert(pieces_keys(p) + Seq::<Key>::empty() =~= pieces_keys(p));
                } else {
                    lemma_pieces_keys_push(p, Piece::Run(run));
                }
                assert(pieces_keys(q) == pieces_keys(p) + char_keys(run));
                lemma_pieces_keys_push(q, Piece::Single(k));
                assert(char_keys(Seq::<char>::empty()) =~= Seq::<Key>::empty());
                assert(pieces_keys(q.push(Piece::Single(k))) + Seq::<Key>::empty() =~= (
                pieces_keys(p) + char_keys(run)).push(k));
                let q2 = q.push(Piece::Single(k));
                assert forall|i: int| 0 <= i < q2.len() - 1 && #[trigger] q2[i] is Run implies !(
                q2[i + 1] is Run) by {
                    if i + 1 < q.len() {
                        assert(q2[i] == p[i]);
                        assert(q2[i + 1] == p[i + 1]);
                    }
                }
            },
        }
    }
}

/// Cutting keeps every key, in order, and cuts at the right places: runs of
/// characters are maximal and non-empty, and every other key stands alone.
/// So a typed word is one host call, not one per character.
pub proof fn lemma_pieces_coalesce(keys: Seq<Key>)
    ensures
        pieces_keys(pieces(keys)) == keys,
        well_cut(pieces(keys)),
{
    lemma_fold_shape(keys);
    let (p, run) = pieces_fold(keys);
    if run.len() > 0 {
        lemma_pieces_keys_push(p, Piece::Run(run));
        let q = p.push(Piece::Run(run));
        assert forall|i: int| 0 <= i < q.len() - 1 && #[trigger] q[i] is Run implies !(
        q[i + 1] is Run) by {
            if i + 1 < p.len() {
                assert(q[i] == p[i]);
                assert(q[i + 1] == p[i + 1]);
            }
        }
    } else {
        assert(char_keys(run) =~= Seq::<Key>::empty());
        assert(pieces_keys(p) + Seq::<Key>::empty() =~= pieces_keys(p));
    }
}

/// The characters of a list of strings.
pub open spec fn strs(v: Seq<String>) -> Seq<Seq<char>> {
    v.map_values(|s: String| s@)
}

fn owned(s: &str) -> (r: String)
    ensures
        r@ == s@,
{
    let mut t = String::new();
    push_str(&mut t, s);
    assert(t@ =~= s@);
    t
}

fn copy_all(dst: &mut Vec<String>, src: &Vec<String>)
    ensures
        strs(final(dst)@) == strs(old(dst)@) + strs(src@),
{
    let mut i: usize = 0;
    let ghost d0 = strs(dst@);
    while i < src.len()
        invariant
            i <= src@.len(),
            strs(dst@) == d0 + strs(src@).take(i as int),
        decreases src@.len() - i,
    {
        let ghost before = dst@;
        dst.push(owned(src[i].as_str()));
        assert(strs(dst@) =~= strs(before).push(src@[i as int]@));
        assert(strs(src@).take(i + 1) =~= strs(src@).take(i as int).push(src@[i as int]@));
        i = i + 1;
    }
    assert(strs(src@).take(src@.len() as int) =~= strs(src@));
}

// ---------------------------------------------------------------------------
// tmux
// ---------------------------------------------------------------------------

/// One planned `tmux send-keys` call.
#[derive(Debug, Clone, PartialEq, Eq)]
pub enum TmuxSend {
    /// A run of characters sent with `-l`, typed rather than interpreted.
    Literal(String),
    /// One named key (`Enter`, `C-c`).
    Named(String),
}

/// The mathematical form of a [`TmuxSend`].
pub enum TmuxSendV {
    /// A literal run.
    Literal(Seq<char>),
    /// A key name.
    Named(Seq<char>),
}

impl View for TmuxSend {
    type V = TmuxSendV;

    open spec fn view(&self) -> TmuxSendV {
        match self {
            TmuxSend::Literal(t) => TmuxSendV::Literal(t@),
            TmuxSend::Named(n) => TmuxSendV::Named(n@),
        }
    }
}

/// The tmux call for a piece.
pub open spec fn tmux_piece(pc: Piece) -> TmuxSendV {
    match pc {
        Piece::Run(t) => TmuxSendV::Literal(t),
        Piece::Single(k) => TmuxSendV::Named(tmux_name(k)),
    }
}

/// The calls that send `keys`: each run of characters as one literal send,
/// each other key by its name.
pub open spec fn tmux_plan(keys: Seq<Key>) -> Seq<TmuxSendV> {
    pieces(keys).map_values(|pc: Piece| tmux_piece(pc))
}

/// The views of planned tmux calls.
pub open spec fn tmux_views(v: Seq<TmuxSend>) -> Seq<TmuxSendV> {
    v.map_values(|t: TmuxSend| t@)
}

/// Drives a single tmux pane, addressed by any tmux target (`session:win.pane`,
/// `%id`, or a bare pane index).
#[derive(Debug, Clone)]
pub struct TmuxBackend {
    pane: String,
}

impl View for TmuxBackend {
    type V = Seq<char>;

    /// The name of the target it drives.
    closed spec fn view(&self) -> Seq<char> {
        self.pane@
    }
}

impl TmuxBackend {
    /// A backend for `pane`.
    pub fn new(pane: String) -> (r: Self)
        ensures
            r@ == pane@,
    {
        TmuxBackend { pane }
    }

    /// The pane this backend drives.
    pub fn pane(&self) -> (r: &str)
        ensures
            r@ == self@,
    {
        self.pane.as_str()
    }

    /// Close the open run of characters `buf` into a literal send, and clear it.
    pub fn flush_literal(buf: &mut String, plan: &mut Vec<TmuxSend>)
        ensures
            tmux_views(final(plan)@) == if old(buf)@.len() == 0 {
                tmux_views(old(plan)@)
            } else {
                tmux_views(old(plan)@).push(TmuxSendV::Literal(old(buf)@))
            },
            final(buf)@ == Seq::<char>::empty(),
    {
        if buf.as_str().is_empty() {
            return;
        }
        let mut run = String::new();
        std::mem::swap(&mut run, buf);
        let ghost before = plan@;
        plan.push(TmuxSend::Literal(run));
        assert(tmux_views(plan@) =~= tmux_views(before).push(TmuxSendV::Literal(old(buf)@)));
    }

    /// Plan the `send-keys` calls for a key sequence: consecutive characters
    /// coalesce into one literal send; named keys are sent one by one between
    /// the runs.
    pub fn plan_send(keys: &[Key]) -> (r: Vec<TmuxSend>)
        ensures
            tmux_views(r@) == tmux_plan(keys@),
    {
        let mut plan: Vec<TmuxSend> = Vec::new();
        let mut literal = String::new();
        let mut i: usize = 0;
        assert(keys@.take(0) =~= Seq::<Key>::empty());
        while i < keys.len()
            invariant
                i <= keys@.len(),
                tmux_views(plan@) == pieces_fold(keys@.take(i as int)).0.map_values(
                    |pc: Piece| tmux_piece(pc),
                ),
                literal@ == pieces_fold(keys@.take(i as int)).1,
            decreases keys@.len() - i,
        {
            let ghost st = pieces_fold(keys@.take(i as int));
            assert(keys@.take(i + 1).drop_last() =~= keys@.take(i as int));
            let k = keys[i];
            match k.to_tmux() {
                TmuxKey::Literal(c) => {
                    push_char(&mut literal, c);
                },
                TmuxKey::Named(name) => {
                    TmuxBackend::flush_literal(&mut literal, &mut plan);
                    let ghost before = plan@;
                    plan.push(TmuxSend::Named(name));
                    proof {
                        let q = close_run(st.0, st.1);
                        assert(tmux_views(before) =~= q.map_values(|pc: Piece| tmux_piece(pc)));
                        assert(!(k is Char));
                        assert(tmux_piece(Piece::Single(k)) == TmuxSendV::Named(tmux_name(k)));
                        assert(plan@.last()@ == TmuxSendV::Named(tmux_name(k)));
                        assert(tmux_views(plan@) =~= tmux_views(before).push(TmuxSendV::Named(tmux_name(k))));
                        assert(tmux_views(plan@) =~= q.push(Piece::Single(k)).map_values(
                            |pc: Piece| tmux_piece(pc),
                        ));
                    }
                },
            }
            i = i + 1;
        }
        assert(keys@.take(keys@.len() as int) =~= keys@);
        let ghost st = pieces_fold(keys@);
        TmuxBackend::flush_literal(&mut literal, &mut plan);
        assert(tmux_views(plan@) =~= close_run(st.0, st.1).map_values(|pc: Piece| tmux_piece(pc)));
        plan
    }

    /// The arguments of the `tmux` call for one planned send:
    /// `send-keys -t <pane> -l <text>` or `send-keys -t <pane> <name>`.
    pub fn send_argv(&self, send: &TmuxSend) -> (r: Vec<String>)
        ensures
            strs(r@) == seq!["send-keys"@, "-t"@, self@] + match send@ {
                TmuxSendV::Literal(t) => seq!["-l"@, t],
                TmuxSendV::Named(n) => seq![n],
            },
    {
        let mut v: Vec<String> = Vec::new();
        v.push(owned("send-keys"));
        v.push(owned("-t"));
        v.push(owned(self.pane.as_str()));
        match send {
            TmuxSend::Literal(t) => {
                v.push(owned("-l"));
                v.push(owned(t.as_str()));
            },
            TmuxSend::Named(n) => {
                v.push(owned(n.as_str()));
            },
        }
        assert(strs(v@) =~= seq!["send-keys"@, "-t"@, self@] + match send@ {
            TmuxSendV::Literal(t) => seq!["-l"@, t],
            TmuxSendV::Named(n) => seq![n],
        });
        v
    }

    /// The arguments of the `tmux` call that prints the pane's text:
    /// `capture-pane -p -t <pane>`.
    pub fn capture_argv(&self) -> (r: Vec<String>)
        ensures
            strs(r@) == seq!["capture-pane"@, "-p"@, "-t"@, self@],
    {
        let mut v: Vec<String> = Vec::new();
        v.push(owned("capture-pane"));
        v.push(owned("-p"));
        v.push(owned("-t"));
        v.push(owned(self.pane.as_str()));
        assert(strs(v@) =~= seq!["capture-pane"@, "-p"@, "-t"@, self@]);
        v
    }

    /// The name of the buffer a paste goes through, owned by process `pid`.
    pub fn buffer_name(pid: u32) -> (r: String)
        ensures
            r@ == "panedrive-"@ + dec(pid as nat),
    {
        let mut b = String::new();
        push_str(&mut b, "panedrive-");
        push_dec(&mut b, pid as u128);
        b
    }

    /// The arguments that load a buffer from standard input:
    /// `load-buffer -b <buffer> -`. The text never appears in them.
    pub fn load_buffer_argv(buffer: &str) -> (r: Vec<String>)
        ensures
            strs(r@) == seq!["load-buffer"@, "-b"@, buffer@, "-"@],
    {
        let mut v: Vec<String> = Vec::new();
        v.push(owned("load-buffer"));
        v.push(owned("-b"));
        v.push(owned(buffer));
        v.push(owned("-"));
        assert(strs(v@) =~= seq!["load-buffer"@, "-b"@, buffer@, "-"@]);
        v
    }

    /// The arguments that paste a buffer into the pane and delete it:
    /// `paste-buffer -d -b <buffer> -t <pane>`.
    pub fn paste_buffer_argv(&self, buffer: &str) -> (r: Vec<String>)
        ensures
            strs(r@) == seq!["paste-buffer"@, "-d"@, "-b"@, buffer@, "-t"@, self@],
    {
        let mut v: Vec<String> = Vec::new();
        v.push(owned("paste-buffer"));
        v.push(owned("-d"));
        v.push(owned("-b"));
        v.push(owned(buffer));
        v.push(owned("-t"));
        v.push(owned(self.pane.as_str()));
        assert(strs(v@) =~= seq!["paste-buffer"@, "-d"@, "-b"@, buffer@, "-t"@, self@]);
        v
    }
}

// ---------------------------------------------------------------------------
// zellij
// ---------------------------------------------------------------------------

/// One planned `zellij action <name> <args...>` call, before execution.
#[derive(Debug, Clone, PartialEq, Eq)]
pub struct Action {
    /// The action's name (`write-chars`, `write`, `dump-screen`).
    pub name: &'static str,
    /// Its arguments.
    pub args: Vec<String>,
}

/// The mathematical form of an [`Action`].
pub struct ActionSpec {
    /// The name.
    pub name: Seq<char>,
    /// The arguments.
    pub args: Seq<Seq<char>>,
}

impl View for Action {
    type V = ActionSpec;

    open spec fn view(&self) -> ActionSpec {
        ActionSpec { name: self.name@, args: strs(self.args@) }
    }
}

/// The decimal spelling of each byte.
pub open spec fn byte_args(bs: Seq<u8>) -> Seq<Seq<char>> {
    bs.map_values(|b: u8| dec(b as nat))
}

/// The zellij action for a piece: a run through `write-chars`, a key through
/// `write` of its raw bytes, each byte a decimal argument.
pub open spec fn zellij_piece(pc: Piece) -> ActionSpec {
    match pc {
        Piece::Run(t) => ActionSpec { name: "write-chars"@, args: seq![t] },
        Piece::Single(k) => ActionSpec { name: "write"@, args: byte_args(key_bytes(k)) },
    }
}

/// The actions that send `keys`.
pub open spec fn zellij_plan(keys: Seq<Key>) -> Seq<ActionSpec> {
    pieces(keys).map_values(|pc: Piece| zellij_piece(pc))
}

/// The views of planned actions.
pub open spec fn action_views(v: Seq<Action>) -> Seq<ActionSpec> {
    v.map_values(|a: Action| a@)
}

/// Push a `write-chars` action for the buffered run, if any, and clear it.
pub fn flush_chars(buf: &mut String, plan: &mut Vec<Action>)
    ensures
        action_views(final(plan)@) == if old(buf)@.len() == 0 {
            action_views(old(plan)@)
        } else {
            action_views(old(plan)@).push(
                ActionSpec { name: "write-chars"@, args: seq![old(buf)@] },
            )
        },
        final(buf)@ == Seq::<char>::empty(),
{
    if buf.as_str().is_empty() {
        return;
    }
    let mut run = String::new();
    std::mem::swap(&mut run, buf);
    let mut args: Vec<String> = Vec::new();
    args.push(run);
    let ghost before = plan@;
    plan.push(Action { name: "write-chars", args });
    assert(strs(plan@.last().args@) =~= seq![old(buf)@]);
    assert(action_views(plan@) =~= action_views(before).push(
        ActionSpec { name: "write-chars"@, args: seq![old(buf)@] },
    ));
}

fn byte_strings(bs: &Vec<u8>) -> (r: Vec<String>)
    ensures
        strs(r@) == byte_args(bs@),
{
    let mut out: Vec<String> = Vec::new();
    let mut i: usize = 0;
    while i < bs.len()
        invariant
            i <= bs@.len(),
            strs(out@) =~= byte_args(bs@).take(i as int),
        decreases bs@.len() - i,
    {
        let mut t = String::new();
        push_dec(&mut t, bs[i] as u128);
        let ghost before = out@;
        out.push(t);
        assert(strs(out@) =~= strs(before).push(dec(bs@[i as int] as nat)));
        assert(byte_args(bs@).take(i + 1) =~= byte_args(bs@).take(i as int).push(
            dec(bs@[i as int] as nat),
        ));
        i = i + 1;
    }
    assert(byte_args(bs@).take(bs@.len() as int) =~= byte_args(bs@));
    out
}

/// Plan the actions for a key sequence: coalesce consecutive printable
/// characters into one `write-chars`, and emit each named/control key as a
/// `write` of its raw bytes (each byte a decimal argument) in between.
pub fn plan_send(keys: &[Key]) -> (r: Vec<Action>)
    ensures
        action_views(r@) == zellij_plan(keys@),
{
    let mut plan: Vec<Action> = Vec::new();
    let mut chars = String::new();
    let mut i: usize = 0;
    assert(keys@.take(0) =~= Seq::<Key>::empty());
    while i < keys.len()
        invariant
            i <= keys@.len(),
            action_views(plan@) == pieces_fold(keys@.take(i as int)).0.map_values(
                |pc: Piece| zellij_piece(pc),
            ),
            chars@ == pieces_fold(keys@.take(i as int)).1,
        decreases keys@.len() - i,
    {
        let ghost st = pieces_fold(keys@.take(i as int));
        assert(keys@.take(i + 1).drop_last() =~= keys@.take(i as int));
        let k = keys[i];
        match k.to_zellij() {
            ZellijKey::Chars(c) => {
                push_char(&mut chars, c);
            },
            ZellijKey::Bytes(bytes) => {
                flush_chars(&mut chars, &mut plan);
                let args = byte_strings(&bytes);
                let ghost before = plan@;
                plan.push(Action { name: "write", args });
                proof {
                    let q = close_run(st.0, st.1);
                    assert(action_views(before) =~= q.map_values(|pc: Piece| zellij_piece(pc)));
                    assert(!(k is Char));
                    assert(plan@.last()@ == zellij_piece(Piece::Single(k)));
                    assert(action_views(plan@) =~= action_views(before).push(zellij_piece(Piece::Single(k))));
                    assert(action_views(plan@) =~= q.push(Piece::Single(k)).map_values(
                        |pc: Piece| zellij_piece(pc),
                    ));
                }
            },
        }
        i = i + 1;
    }
    assert(keys@.take(keys@.len() as int) =~= keys@);
    let ghost st = pieces_fold(keys@);
    flush_chars(&mut chars, &mut plan);
    assert(action_views(plan@) =~= close_run(st.0, st.1).map_values(|pc: Piece| zellij_piece(pc)));
    plan
}

/// `s` with every character but ASCII letters and digits replaced by `_`, so
/// that it is safe as part of a file name.
pub open spec fn safe_name(s: Seq<char>) -> Seq<char> {
    s.map_values(
        |c: char|
            if ('a' <= c <= 'z') || ('A' <= c <= 'Z') || ('0' <= c <= '9') {
                c
            } else {
                '_'
            },
    )
}

fn push_safe(out: &mut String, s: &str)
    ensures
        final(out)@ == old(out)@ + safe_name(s@),
{
    let cs = chars_of(s);
    let mut i: usize = 0;
    while i < cs.len()
        invariant
            i <= cs@.len(),
            cs@ == s@,
            out@ == old(out)@ + safe_name(s@).take(i as int),
        decreases cs@.len() - i,
    {
        let c = cs[i];
        let d = if ('a' <= c && c <= 'z') || ('A' <= c && c <= 'Z') || ('0' <= c && c <= '9') {
            c
        } else {
            '_'
        };
        push_char(out, d);
        assert(safe_name(s@).take(i + 1) =~= safe_name(s@).take(i as int).push(d));
        i = i + 1;
    }
    assert(safe_name(s@).take(cs@.len() as int) =~= safe_name(s@));
}

/// The file name `panedrive-<kind>-<safe session>-<pid>.dump`.
pub open spec fn dump_name(kind: Seq<char>, session: Seq<char>, pid: nat) -> Seq<char> {
    "panedrive-"@ + kind + "-"@ + safe_name(session) + "-"@ + dec(pid) + ".dump"@
}

fn dump_file_name(kind: &str, session: &str, pid: u32) -> (r: String)
    ensures
        r@ == dump_name(kind@, session@, pid as nat),
{
    let mut out = String::new();
    push_str(&mut out, "panedrive-");
    push_str(&mut out, kind);
    push_str(&mut out, "-");
    push_safe(&mut out, session);
    push_str(&mut out, "-");
    push_dec(&mut out, pid as u128);
    push_str(&mut out, ".dump");
    out
}

/// Drives the focused pane of one zellij session, addressed by session name.
#[derive(Debug, Clone)]
pub struct ZellijBackend {
    session: String,
}

impl View for ZellijBackend {
    type V = Seq<char>;

    /// The name of the target it drives.
    closed spec fn view(&self) -> Seq<char> {
        self.session@
    }
}

impl ZellijBackend {
    /// A backend for the session named `session`.
    pub fn new(session: String) -> (r: Self)
        ensures
            r@ == session@,
    {
        ZellijBackend { session }
    }

    /// The session this backend drives.
    pub fn session(&self) -> (r: &str)
        ensures
            r@ == self@,
    {
        self.session.as_str()
    }

    /// The full argv for one planned action:
    /// `--session=<s> action <name> [-- <args...>]`. The session is one token,
    /// so it is never taken for a flag value, and `--` comes before the payload,
    /// so text that begins with `-` is taken literally.
    pub fn argv(&self, action: &Action) -> (r: Vec<String>)
        ensures
            strs(r@) == seq!["--session="@ + self@, "action"@, action.name@] + if action@.args.len() == 0 {
                Seq::<Seq<char>>::empty()
            } else {
                seq!["--"@] + action@.args
            },
    {
        let mut v: Vec<String> = Vec::new();
        let mut first = String::new();
        push_str(&mut first, "--session=");
        push_str(&mut first, self.session.as_str());
        v.push(first);
        v.push(owned("action"));
        v.push(owned(action.name));
        assert(strs(v@) =~= seq!["--session="@ + self@, "action"@, action.name@]);
        if action.args.len() > 0 {
            v.push(owned("--"));
            let ghost mid = strs(v@);
            copy_all(&mut v, &action.args);
            assert(strs(v@) =~= seq!["--session="@ + self@, "action"@, action.name@] + (
            seq!["--"@] + action@.args));
        } else {
            assert(action@.args =~= Seq::<Seq<char>>::empty());
            assert(strs(v@) =~= seq!["--session="@ + self@, "action"@, action.name@]
                + Seq::<Seq<char>>::empty());
        }
        v
    }

    /// The file a screen dump goes to, owned by process `pid` and this session:
    /// `panedrive-zellij-<safe session>-<pid>.dump`. The session name is reduced
    /// to file-name-safe characters, so a name with a path separator cannot
    /// redirect the dump.
    pub fn dump_file_name(&self, pid: u32) -> (r: String)
        ensures
            r@ == dump_name("zellij"@, self@, pid as nat),
    {
        dump_file_name("zellij", self.session.as_str(), pid)
    }

    /// The action that dumps the screen to `path`.
    pub fn dump_action(path: String) -> (r: Action)
        ensures
            r@ == (ActionSpec { name: "dump-screen"@, args: seq![path@] }),
    {
        let mut args: Vec<String> = Vec::new();
        args.push(path);
        let r = Action { name: "dump-screen", args };
        assert(r@.args =~= seq![path@]);
        r
    }
}

// ---------------------------------------------------------------------------
// GNU screen
// ---------------------------------------------------------------------------

/// The raw bytes of `keys`, concatenated.
pub open spec fn keys_bytes(keys: Seq<Key>) -> Seq<u8>
    decreases keys.len(),
{
    if keys.len() == 0 {
        seq![]
    } else {
        keys_bytes(keys.drop_last()) + key_bytes(keys.last())
    }
}

/// The characters a terminal sends for a key: the character itself, or the
/// control character or escape sequence of a named key.
pub open spec fn key_chars(k: Key) -> Seq<char> {
    match k {
        Key::Char(c) => seq![c],
        Key::Enter => seq!['\r'],
        Key::Tab => seq!['\t'],
        Key::Backspace => seq!['\x7f'],
        Key::Esc => seq!['\x1b'],
        Key::Up => seq!['\x1b', '[', 'A'],
        Key::Down => seq!['\x1b', '[', 'B'],
        Key::Right => seq!['\x1b', '[', 'C'],
        Key::Left => seq!['\x1b', '[', 'D'],
        Key::Ctrl(c) => seq![((((upper(c) as u32) as u8) & 0x1fu8) as u32) as char],
    }
}

/// The characters of `keys`, concatenated.
pub open spec fn keys_chars(keys: Seq<Key>) -> Seq<char>
    decreases keys.len(),
{
    if keys.len() == 0 {
        seq![]
    } else {
        keys_chars(keys.drop_last()) + key_chars(keys.last())
    }
}

proof fn lemma_encode_append(a: Seq<char>, b: Seq<char>)
    ensures
        encode_utf8(a + b) == encode_utf8(a) + encode_utf8(b),
    decreases a.len(),
{
    if a.len() == 0 {
        assert(a + b =~= b);
        assert(encode_utf8(a) =~= Seq::<u8>::empty());
        assert(Seq::<u8>::empty() + encode_utf8(b) =~= encode_utf8(b));
    } else {
        assert((a + b)[0] == a[0]);
        assert((a + b).drop_first() =~= a.drop_first() + b);
        lemma_encode_append(a.drop_first(), b);
        assert(encode_scalar(a[0] as u32) + (encode_utf8(a.drop_first()) + encode_utf8(b))
            =~= (encode_scalar(a[0] as u32) + encode_utf8(a.drop_first())) + encode_utf8(b));
    }
}

proof fn lemma_ascii_encode(cs: Seq<char>)
    requires
        is_ascii_chars(cs),
    ensures
        encode_utf8(cs) == cs.map_values(|c: char| c as u8),
{
    is_ascii_chars_encode_utf8(cs);
    assert(encode_utf8(cs) =~= cs.map_values(|c: char| c as u8));
}

proof fn lemma_key_bytes_encode(k: Key)
    ensures
        key_bytes(k) == encode_utf8(key_chars(k)),
{
    match k {
        Key::Char(_) => {},
        Key::Ctrl(c) => {
            let x: u8 = (upper(c) as u32) as u8;
            let b: u8 = x & 0x1fu8;
            assert(b <= 0x1f) by (bit_vector)
                requires
                    b == x & 0x1fu8,
            ;
            let cs = seq![(b as u32) as char];
            assert(is_ascii_chars(cs));
            lemma_ascii_encode(cs);
            assert(key_bytes(k) =~= cs.map_values(|c: char| c as u8));
        },
        _ => {
            let cs = key_chars(k);
            assert(is_ascii_chars(cs));
            lemma_ascii_encode(cs);
            assert(key_bytes(k) =~= cs.map_values(|c: char| c as u8));
        },
    }
}

/// The raw bytes of a key sequence are the UTF-8 encoding of its characters.
pub proof fn lemma_keys_bytes_encode(keys: Seq<Key>)
    ensures
        keys_bytes(keys) == encode_utf8(keys_chars(keys)),
    decreases keys.len(),
{
    if keys.len() == 0 {
        assert(encode_utf8(Seq::<char>::empty()) =~= Seq::<u8>::empty());
    } else {
        lemma_keys_bytes_encode(keys.drop_last());
        lemma_key_bytes_encode(keys.last());
        lemma_encode_append(keys_chars(keys.drop_last()), key_chars(keys.last()));
    }
}

/// The raw bytes a terminal sends for `keys`, concatenated: what a
/// pseudo-terminal host writes to the program's input.
pub fn payload_bytes(keys: &[Key]) -> (r: Vec<u8>)
    ensures
        r@ == keys_bytes(keys@),
{
    let mut bytes: Vec<u8> = Vec::new();
    let mut i: usize = 0;
    while i < keys.len()
        invariant
            i <= keys@.len(),
            bytes@ == keys_bytes(keys@.take(i as int)),
        decreases keys@.len() - i,
    {
        let kb = keys[i].to_bytes();
        let mut j: usize = 0;
        let ghost b0 = bytes@;
        while j < kb.len()
            invariant
                j <= kb@.len(),
                bytes@ == b0 + kb@.take(j as int),
            decreases kb@.len() - j,
        {
            bytes.push(kb[j]);
            assert(kb@.take(j + 1) =~= kb@.take(j as int).push(kb@[j as int]));
            j = j + 1;
        }
        assert(kb@.take(kb@.len() as int) =~= kb@);
        assert(keys@.take(i + 1).drop_last() =~= keys@.take(i as int));
        i = i + 1;
    }
    assert(keys@.take(keys@.len() as int) =~= keys@);
    bytes
}

/// The exact text to `stuff` for a key sequence: each key as its raw terminal
/// bytes, concatenated. Those bytes are always valid UTF-8, so the text is
/// lossless: exactly the characters the keys send.
pub fn stuff_payload(keys: &[Key]) -> (r: String)
    ensures
        r@ == utf8_lossy(keys_bytes(keys@)),
        r@ == keys_chars(keys@),
{
    let bytes = payload_bytes(keys);
    proof {
        lemma_keys_bytes_encode(keys@);
        encode_utf8_valid_utf8(keys_chars(keys@));
        encode_utf8_decode_utf8(keys_chars(keys@));
    }
    lossy_string(bytes.as_slice())
}

/// Drives the current window of one GNU screen session, addressed by session
/// name.
#[derive(Debug, Clone)]
pub struct ScreenBackend {
    session: String,
}

impl View for ScreenBackend {
    type V = Seq<char>;

    /// The name of the target it drives.
    closed spec fn view(&self) -> Seq<char> {
        self.session@
    }
}

impl ScreenBackend {
    /// A backend for the session named `session`.
    pub fn new(session: String) -> (r: Self)
        ensures
            r@ == session@,
    {
        ScreenBackend { session }
    }

    /// The session this backend drives.
    pub fn session(&self) -> (r: &str)
        ensures
            r@ == self@,
    {
        self.session.as_str()
    }

    /// The arguments of `screen -S <session> -X <command> <args...>`.
    pub fn command_argv(&self, command: &Vec<String>) -> (r: Vec<String>)
        ensures
            strs(r@) == seq!["-S"@, self@, "-X"@] + strs(command@),
    {
        let mut v: Vec<String> = Vec::new();
        v.push(owned("-S"));
        v.push(owned(self.session.as_str()));
        v.push(owned("-X"));
        assert(strs(v@) =~= seq!["-S"@, self@, "-X"@]);
        copy_all(&mut v, command);
        v
    }

    /// The file a `hardcopy` goes to, owned by process `pid` and this session:
    /// `panedrive-screen-<safe session>-<pid>.dump`.
    pub fn dump_file_name(&self, pid: u32) -> (r: String)
        ensures
            r@ == dump_name("screen"@, self@, pid as nat),
    {
        dump_file_name("screen", self.session.as_str(), pid)
    }
}

} // verus!
