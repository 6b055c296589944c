//! Decode a raw key byte stream into a script.
//!
//! [`ScriptRecorder`] is fed the bytes a user types (as they arrive, possibly
//! split mid-escape-sequence) and accumulates script lines: runs of printable
//! bytes become a single `type` line, named keys (Enter, arrows, Ctrl-*)
//! become `press` lines. The interactive loop that owns the terminal and the
//! child PTY lives with the command-line program; this decoder is where the
//! fiddly parsing is.
//!
//! The decoding is stated over the whole stream: [`scan`] reads a byte stream
//! from the front into keys and literal bytes, holding back a trailing escape
//! sequence that has not fully arrived. [`lemma_feed_in_pieces`] shows that
//! how the stream is split across [`ScriptRecorder::feed`] calls does not
//! matter.
use crate::text::{lossy_string, push_char, push_str, utf8_lossy};
use vstd::utf8::{decode_utf8, valid_utf8};
use vstd::prelude::*;

verus! {

/// The stop key for an interactive recording: Ctrl-] (as in telnet), chosen so
/// it does not collide with keys an app is likely to want.
pub const STOP_BYTE: u8 = 0x1du8;

/// Whether a byte typed during an interactive recording ends it: only the
/// stop key, Ctrl-], does.
pub fn ends_recording(b: u8) -> (r: bool)
    ensures
        r == (b == STOP_BYTE),
{
    b == STOP_BYTE
}

/// One decoded unit of typed input.
pub enum Tok {
    /// A named key, by the name a `press` line gives it.
    Press(Seq<char>),
    /// A byte of literal text.
    Lit(u8),
}

/// The key an `ESC [ x` sequence names by its final byte `x`.
pub open spec fn csi_name(b: u8) -> Seq<char> {
    if b == 0x41 {
        "Up"@
    } else if b == 0x42 {
        "Down"@
    } else if b == 0x43 {
        "Right"@
    } else if b == 0x44 {
        "Left"@
    } else {
        "Escape"@
    }
}

/// The name of the Ctrl-letter that control byte `b` (1 to 26) encodes.
pub open spec fn ctrl_name(b: u8) -> Seq<char> {
    "C-"@.push(((b + 0x60) as u32) as char)
}

/// What a single byte outside an escape sequence decodes to: a named key,
/// a literal byte, or nothing (C0 controls without a key name).
pub open spec fn byte_toks(b: u8) -> Seq<Tok> {
    if b == 0x0d || b == 0x0a {
        seq![Tok::Press("Enter"@)]
    } else if b == 0x09 {
        seq![Tok::Press("Tab"@)]
    } else if b == 0x08 || b == 0x7f {
        seq![Tok::Press("Backspace"@)]
    } else if 0x01 <= b <= 0x1a {
        seq![Tok::Press(ctrl_name(b))]
    } else if b == 0x00 || 0x1c <= b <= 0x1f {
        seq![]
    } else {
        seq![Tok::Lit(b)]
    }
}

/// Decode `bs` from the front: the units it holds, and the trailing bytes
/// held back because they may begin an escape sequence still arriving.
pub open spec fn scan(bs: Seq<u8>) -> (Seq<Tok>, Seq<u8>)
    decreases bs.len(),
{
    if bs.len() == 0 {
        (seq![], seq![])
    } else if bs[0] == 0x1b {
        if bs.len() == 1 || (bs[1] == 0x5b && bs.len() < 3) {
            (seq![], bs)
        } else if bs[1] == 0x5b {
            let (t, r) = scan(bs.skip(3));
            (seq![Tok::Press(csi_name(bs[2]))] + t, r)
        } else {
            let (t, r) = scan(bs.skip(1));
            (seq![Tok::Press("Escape"@)] + t, r)
        }
    } else {
        let (t, r) = scan(bs.skip(1));
        (byte_toks(bs[0]) + t, r)
    }
}

/// The text of a literal run: its characters when it is valid UTF-8, else
/// its lossy decoding (each invalid sequence replaced by U+FFFD).
pub open spec fn literal_text(literal: Seq<u8>) -> Seq<char> {
    if valid_utf8(literal) {
        decode_utf8(literal)
    } else {
        utf8_lossy(literal)
    }
}

/// The lines so far, with the pending literal run flushed as a `type` line.
pub open spec fn flushed(lines: Seq<Seq<char>>, literal: Seq<u8>) -> Seq<Seq<char>> {
    if literal.len() == 0 {
        lines
    } else {
        lines.push("type "@ + literal_text(literal))
    }
}

/// Take one unit: a key flushes the literal run and adds a `press` line; a
/// literal byte extends the run.
pub open spec fn apply_tok(st: (Seq<Seq<char>>, Seq<u8>), t: Tok) -> (Seq<Seq<char>>, Seq<u8>) {
    match t {
        Tok::Press(n) => (flushed(st.0, st.1).push("press "@ + n), seq![]),
        Tok::Lit(b) => (st.0, st.1.push(b)),
    }
}

/// Take the units `ts` in order.
pub open spec fn apply_toks(st: (Seq<Seq<char>>, Seq<u8>), ts: Seq<Tok>) -> (
    Seq<Seq<char>>,
    Seq<u8>,
)
    decreases ts.len(),
{
    if ts.len() == 0 {
        st
    } else {
        apply_tok(apply_toks(st, ts.drop_last()), ts.last())
    }
}

/// The mathematical form of a [`ScriptRecorder`].
pub struct RecV {
    /// The finished script lines.
    pub lines: Seq<Seq<char>>,
    /// The literal run not yet flushed.
    pub literal: Seq<u8>,
    /// Bytes held back as a possibly incomplete escape sequence.
    pub pending: Seq<u8>,
}

/// A recorder that has been fed nothing.
pub open spec fn rec_empty() -> RecV {
    RecV { lines: seq![], literal: seq![], pending: seq![] }
}

/// What one [`ScriptRecorder::feed`] of `bytes` does: decode the held-back
/// bytes followed by the new ones.
pub open spec fn feed_spec(r: RecV, bytes: Seq<u8>) -> RecV {
    let (ts, rest) = scan(r.pending + bytes);
    let (ls, lit) = apply_toks((r.lines, r.literal), ts);
    RecV { lines: ls, literal: lit, pending: rest }
}

/// Lines as script text: each followed by a newline.
pub open spec fn script_text(ls: Seq<Seq<char>>) -> Seq<char>
    decreases ls.len(),
{
    if ls.len() == 0 {
        seq![]
    } else {
        script_text(ls.drop_last()) + ls.last() + "\n"@
    }
}

/// The script a recorder finishes with. Held-back bytes are dropped.
pub open spec fn finish_spec(r: RecV) -> Seq<char> {
    script_text(flushed(r.lines, r.literal))
}

/// Decoding a stream splits at the bytes held back by its first part: what
/// `a + b` decodes to is what `a` decodes to, followed by what `a`'s held-back
/// bytes followed by `b` decode to.
pub proof fn lemma_scan_append(a: Seq<u8>, b: Seq<u8>)
    ensures
        scan(a + b) == ({
            let (t1, r1) = scan(a);
            let (t2, r2) = scan(r1 + b);
            (t1 + t2, r2)
        }),
    decreases a.len(),
{
    let (t1, r1) = scan(a);
    if a.len() == 0 {
        assert(a + b =~= b);
        assert(r1 + b =~= b);
        assert(t1 + scan(b).0 =~= scan(b).0);
    } else if a[0] == 0x1b && (a.len() == 1 || (a[1] == 0x5b && a.len() < 3)) {
        assert(r1 == a);
        assert(t1 + scan(r1 + b).0 =~= scan(r1 + b).0);
    } else {
        let k: int = if a[0] == 0x1b && a[1] == 0x5b {
            3
        } else {
            1
        };
        assert((a + b)[0] == a[0]);
        if a[0] == 0x1b {
            assert((a + b)[1] == a[1]);
            if a[1] == 0x5b {
                assert((a + b)[2] == a[2]);
            }
        }
        assert((a + b).skip(k) =~= a.skip(k) + b);
        lemma_scan_append(a.skip(k), b);
        let (u1, s1) = scan(a.skip(k));
        assert(r1 == s1);
        let (u2, s2) = scan(s1 + b);
        let head = if a[0] == 0x1b && a[1] == 0x5b {
            seq![Tok::Press(csi_name(a[2]))]
        } else if a[0] == 0x1b {
            seq![Tok::Press("Escape"@)]
        } else {
            byte_toks(a[0])
        };
        assert(t1 == head + u1);
        assert(scan(a + b).0 == head + (u1 + u2));
        assert(head + (u1 + u2) =~= (head + u1) + u2);
    }
}

/// Taking `t1` then `t2` is taking `t1 + t2`.
pub proof fn lemma_apply_toks_append(st: (Seq<Seq<char>>, Seq<u8>), t1: Seq<Tok>, t2: Seq<Tok>)
    ensures
        apply_toks(st, t1 + t2) == apply_toks(apply_toks(st, t1), t2),
    decreases t2.len(),
{
    if t2.len() == 0 {
        assert(t1 + t2 =~= t1);
    } else {
        assert((t1 + t2).drop_last() =~= t1 + t2.drop_last());
        assert((t1 + t2).last() == t2.last());
        lemma_apply_toks_append(st, t1, t2.drop_last());
    }
}

proof fn lemma_apply_push(st: (Seq<Seq<char>>, Seq<u8>), done: Seq<Tok>, t: Tok)
    ensures
        apply_toks(st, done.push(t)) == apply_tok(apply_toks(st, done), t),
{
    assert(done.push(t).drop_last() =~= done);
}

/// Feeding a stream in pieces is feeding it at once: a recorder fed `a` and
/// then `b` is the recorder fed `a + b`, however an escape sequence is split.
pub proof fn lemma_feed_in_pieces(r: RecV, a: Seq<u8>, b: Seq<u8>)
    ensures
        feed_spec(feed_spec(r, a), b) == feed_spec(r, a + b),
{
    let p = r.pending + a;
    lemma_scan_append(p, b);
    assert(r.pending + (a + b) =~= p + b);
    let (t1, r1) = scan(p);
    let (t2, r2) = scan(r1 + b);
    lemma_apply_toks_append((r.lines, r.literal), t1, t2);
}

/// Incrementally turns typed bytes into script lines.
pub struct ScriptRecorder {
    lines: Vec<String>,
    /// A pending run of literal (typed) bytes, flushed as one `type` line.
    literal: Vec<u8>,
    /// Bytes held back because they may be the start of an escape sequence
    /// that has not fully arrived yet.
    pending: Vec<u8>,
}

impl View for ScriptRecorder {
    type V = RecV;

    closed spec fn view(&self) -> RecV {
        RecV {
            lines: self.lines@.map_values(|l: String| l@),
            literal: self.literal@,
            pending: self.pending@,
        }
    }
}

impl ScriptRecorder {
    /// A recorder that has seen no input.
    pub fn new() -> (r: Self)
        ensures
            r@ == rec_empty(),
    {
        let r = ScriptRecorder { lines: Vec::new(), literal: Vec::new(), pending: Vec::new() };
        assert(r@.lines =~= seq![]);
        r
    }

    fn flush_literal(&mut self)
        ensures
            final(self)@ == (RecV {
                lines: flushed(old(self)@.lines, old(self)@.literal),
                literal: seq![],
                ..old(self)@
            }),
    {
        if self.literal.len() == 0 {
            assert(self.literal@ =~= seq![]);
            return;
        }
        let text = lossy_string(self.literal.as_slice());
        self.literal.clear();
        let mut line = String::new();
        push_str(&mut line, "type ");
        push_str(&mut line, text.as_str());
        let ghost before = self.lines@;
        self.lines.push(line);
        assert(self.lines@.map_values(|l: String| l@) =~= before.map_values(|l: String| l@).push(
            "type "@ + literal_text(old(self)@.literal),
        ));
    }

    fn press(&mut self, name: &str)
        ensures
            final(self)@ == (RecV {
                lines: apply_tok((old(self)@.lines, old(self)@.literal), Tok::Press(name@)).0,
                literal: seq![],
                ..old(self)@
            }),
    {
        self.flush_literal();
        let mut line = String::new();
        push_str(&mut line, "press ");
        push_str(&mut line, name);
        let ghost before = self.lines@;
        self.lines.push(line);
        assert(self.lines@.map_values(|l: String| l@) =~= before.map_values(|l: String| l@).push(
            "press "@ + name@,
        ));
    }

    fn press_ctrl(&mut self, b: u8)
        requires
            0x01 <= b <= 0x1a,
        ensures
            final(self)@ == (RecV {
                lines: apply_tok((old(self)@.lines, old(self)@.literal), Tok::Press(ctrl_name(b))).0,
                literal: seq![],
                ..old(self)@
            }),
    {
        self.flush_literal();
        let mut line = String::new();
        push_str(&mut line, "press C-");
        let c = crate::text::char_from_ascii(b + 0x60);
        push_char(&mut line, c);
        proof {
            reveal_strlit("press C-");
            reveal_strlit("press ");
            reveal_strlit("C-");
            assert("press C-"@ =~= "press "@ + "C-"@);
        }
        let ghost before = self.lines@;
        self.lines.push(line);
        assert(self.lines@.map_values(|l: String| l@) =~= before.map_values(|l: String| l@).push(
            "press "@ + ctrl_name(b),
        ));
    }

    /// Feed raw input bytes. Complete keys are decoded now; an incomplete
    /// trailing escape sequence is held until the next call.
    pub fn feed(&mut self, bytes: &[u8])
        ensures
            final(self)@ == feed_spec(old(self)@, bytes@),
    {
        let mut p: Vec<u8> = Vec::new();
        std::mem::swap(&mut p, &mut self.pending);
        let mut j: usize = 0;
        while j < bytes.len()
            invariant
                j <= bytes@.len(),
                p@ == old(self)@.pending + bytes@.take(j as int),
            decreases bytes@.len() - j,
        {
            p.push(bytes[j]);
            assert(bytes@.take(j + 1) =~= bytes@.take(j as int).push(bytes@[j as int]));
            j = j + 1;
        }
        assert(bytes@.take(j as int) =~= bytes@);
        let ghost all = p@;
        let ghost start = (old(self)@.lines, old(self)@.literal);
        let ghost mut done: Seq<Tok> = seq![];
        let mut i: usize = 0;
        let mut held = false;
        assert(all.skip(0) =~= all);
        while !held && i < p.len()
            invariant
                all == p@,
                all == old(self)@.pending + bytes@,
                i <= all.len(),
                scan(all) == (done + scan(all.skip(i as int)).0, scan(all.skip(i as int)).1),
                (self@.lines, self@.literal) == apply_toks(start, done),
                held ==> scan(all.skip(i as int)) == (Seq::<Tok>::empty(), all.skip(i as int)),
            decreases all.len() - i + (if held {
                0int
            } else {
                1int
            }),
        {
            let ghost rest = all.skip(i as int);
            let b = p[i];
            assert(rest[0] == b);
            if b == 0x1b {
                if i + 1 == p.len() {
                    held = true;
                } else if p[i + 1] == 0x5b {
                    assert(rest[1] == 0x5b);
                    if i + 2 == p.len() {
                        held = true;
                    } else {
                        let fin = p[i + 2];
                        assert(rest[2] == fin);
                        if fin == 0x41 {
                            self.press("Up");
                        } else if fin == 0x42 {
                            self.press("Down");
                        } else if fin == 0x43 {
                            self.press("Right");
                        } else if fin == 0x44 {
                            self.press("Left");
                        } else {
                            self.press("Escape");
                        }
                        let ghost t = Tok::Press(csi_name(fin));
                        assert(rest.skip(3) =~= all.skip(i + 3));
                        proof {
                            assert(scan(all).0 =~= done.push(t) + scan(all.skip(i + 3)).0);
                            lemma_apply_push(start, done, t);
                            done = done.push(t);
                        }
                        i = i + 3;
                    }
                } else {
                    assert(rest[1] != 0x5b);
                    self.press("Escape");
                    let ghost t = Tok::Press("Escape"@);
                    assert(rest.skip(1) =~= all.skip(i + 1));
                    proof {
                        assert(scan(all).0 =~= done.push(t) + scan(all.skip(i + 1)).0);
                        lemma_apply_push(start, done, t);
                        done = done.push(t);
                    }
                    i = i + 1;
                }
            } else {
                let ghost ts = byte_toks(b);
                if b == 0x0d || b == 0x0a {
                    self.press("Enter");
                } else if b == 0x09 {
                    self.press("Tab");
                } else if b == 0x08 || b == 0x7f {
                    self.press("Backspace");
                } else if 0x01 <= b && b <= 0x1a {
                    self.press_ctrl(b);
                } else if b == 0x00 || (0x1c <= b && b <= 0x1f) {
                } else {
                    self.literal.push(b);
                }
                assert(rest.skip(1) =~= all.skip(i + 1));
                proof {
                    assert(scan(all).0 =~= (done + ts) + scan(all.skip(i + 1)).0);
                    if ts.len() == 1 {
                        assert(done + ts =~= done.push(ts[0]));
                        lemma_apply_push(start, done, ts[0]);
                    } else {
                        assert(done + ts =~= done);
                    }
                    done = done + ts;
                }
                i = i + 1;
            }
        }
        proof {
            if !held {
                assert(all.skip(i as int) =~= Seq::<u8>::empty());
            }
            assert(done + Seq::<Tok>::empty() =~= done);
        }
        let mut rest: Vec<u8> = Vec::new();
        let mut k = i;
        while k < p.len()
            invariant
                i <= k <= all.len(),
                all == p@,
                rest@ == all.subrange(i as int, k as int),
            decreases all.len() - k,
        {
            rest.push(p[k]);
            assert(all.subrange(i as int, k + 1) =~= all.subrange(i as int, k as int).push(
                all[k as int],
            ));
            k = k + 1;
        }
        assert(all.subrange(i as int, all.len() as int) =~= all.skip(i as int));
        self.pending = rest;
    }

    /// Flush any pending literal run and return the assembled script text
    /// (always newline-terminated; empty input yields an empty string).
    pub fn finish(self) -> (r: String)
        ensures
            r@ == finish_spec(self@),
    {
        let mut this = self;
        this.flush_literal();
        let mut out = String::new();
        let mut i: usize = 0;
        let ghost ls = this@.lines;
        assert(ls.take(0) =~= Seq::<Seq<char>>::empty());
        while i < this.lines.len()
            invariant
                ls == this@.lines,
                ls.len() == this.lines@.len(),
                i <= ls.len(),
                out@ == script_text(ls.take(i as int)),
            decreases ls.len() - i,
        {
            push_str(&mut out, this.lines[i].as_str());
            push_char(&mut out, '\n');
            proof {
                reveal_strlit("\n");
                assert(ls[i as int] == this.lines@[i as int]@);
                assert(ls.take(i + 1).drop_last() =~= ls.take(i as int));
            }
            assert(out@ =~= script_text(ls.take(i + 1)));
            i = i + 1;
        }
        assert(ls.take(ls.len() as int) =~= ls);
        out
    }
}

} // verus!
