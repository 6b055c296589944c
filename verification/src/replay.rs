//! Replaying a recording: a session recorded by [`ScriptRecorder`] and parsed
//! back as a script sends the same bytes it was recorded from.
//!
//! [`ScriptRecorder`]: crate::record::ScriptRecorder
use crate::backend::keys_bytes;
use crate::key::{key_bytes, named_key, parse_key, parse_keys_spec, Key};
use crate::record::{
    apply_toks, byte_toks, csi_name, ctrl_name, feed_spec, finish_spec, flushed,
    literal_text, rec_empty, scan, script_text, Tok,
};
use crate::script::{find_ws_from, parse_line, parse_type_spec, script_steps, steps_upto, LineV, SourceV, StepV};
use crate::text::{
    is_sep, lines, lines_from, lower, lower_all, starts_with, strip_cr, tokens, tokens_from,
    trim, trim_start, upper, Sep,
};
use vstd::utf8::{
    decode_utf8, encode_utf8, encode_utf8_decode_utf8, encode_utf8_valid_utf8, is_ascii_chars,
    is_ascii_chars_encode_utf8, valid_utf8,
};
use vstd::prelude::*;

verus! {

/// A byte stream made only of whole units that a recording replays exactly:
/// printable ASCII, DEL, an arrow key's `ESC [ A`..`ESC [ D`, or a control
/// byte from 0x01 to 0x1a other than backspace (0x08) and line feed (0x0a),
/// which are recorded as the keys that send 0x7f and 0x0d.
pub open spec fn recordable(bs: Seq<u8>) -> bool
    decreases bs.len(),
{
    if bs.len() == 0 {
        true
    } else if bs[0] == 0x1b {
        bs.len() >= 3 && bs[1] == 0x5b && 0x41 <= bs[2] <= 0x44 && recordable(bs.skip(3))
    } else {
        (0x20 <= bs[0] <= 0x7f || (0x01 <= bs[0] <= 0x1a && bs[0] != 0x08 && bs[0] != 0x0a))
            && recordable(bs.skip(1))
    }
}

/// The bytes a unit stands for: a literal byte itself, a key the bytes its
/// name's key sends.
pub open spec fn tok_bytes(t: Tok) -> Seq<u8> {
    match t {
        Tok::Lit(b) => seq![b],
        Tok::Press(n) => key_bytes(parse_key(n)->0),
    }
}

/// The bytes a sequence of units stands for.
pub open spec fn toks_bytes(ts: Seq<Tok>) -> Seq<u8>
    decreases ts.len(),
{
    if ts.len() == 0 {
        seq![]
    } else {
        tok_bytes(ts[0]) + toks_bytes(ts.drop_first())
    }
}

/// A key name the recorder writes for a recordable byte.
pub open spec fn press_name(n: Seq<char>) -> bool {
    ||| n == "Enter"@
    ||| n == "Tab"@
    ||| n == "Backspace"@
    ||| n == "Up"@
    ||| n == "Down"@
    ||| n == "Right"@
    ||| n == "Left"@
    ||| exists|b: u8| 0x01 <= b <= 0x1a && n == #[trigger] ctrl_name(b)
}

/// A unit decoded from recordable bytes: a printable ASCII byte or a named key.
pub open spec fn good_tok(t: Tok) -> bool {
    match t {
        Tok::Lit(b) => 0x20 <= b <= 0x7e,
        Tok::Press(n) => press_name(n),
    }
}

proof fn lemma_toks_bytes_append(a: Seq<Tok>, b: Seq<Tok>)
    ensures
        toks_bytes(a + b) == toks_bytes(a) + toks_bytes(b),
    decreases a.len(),
{
    if a.len() == 0 {
        assert(a + b =~= b);
    } else {
        assert((a + b)[0] == a[0]);
        assert((a + b).drop_first() =~= a.drop_first() + b);
        lemma_toks_bytes_append(a.drop_first(), b);
    }
}

proof fn lemma_key_enter()
    ensures
        parse_key("Enter"@) == Some(Key::Enter),
{
    reveal_strlit("Enter");
    reveal_strlit("enter");
    assert(trim("Enter"@) == "Enter"@);
    assert(lower_all("Enter"@) =~= "enter"@);
}

proof fn lemma_key_tab()
    ensures
        parse_key("Tab"@) == Some(Key::Tab),
{
    reveal_strlit("Tab");
    reveal_strlit("tab");
    reveal_strlit("enter");
    reveal_strlit("cr");
    reveal_strlit("return");
    assert(trim("Tab"@) == "Tab"@);
    assert(lower_all("Tab"@) =~= "tab"@);
}

proof fn lemma_key_backspace()
    ensures
        parse_key("Backspace"@) == Some(Key::Backspace),
{
    reveal_strlit("Backspace");
    reveal_strlit("backspace");
    reveal_strlit("enter");
    reveal_strlit("cr");
    reveal_strlit("return");
    reveal_strlit("tab");
    reveal_strlit("esc");
    reveal_strlit("escape");
    assert(trim("Backspace"@) == "Backspace"@);
    assert(lower_all("Backspace"@) =~= "backspace"@);
}

proof fn lemma_key_up()
    ensures
        parse_key("Up"@) == Some(Key::Up),
{
    reveal_strlit("Up");
    reveal_strlit("up");
    reveal_strlit("enter");
    reveal_strlit("cr");
    reveal_strlit("return");
    reveal_strlit("tab");
    reveal_strlit("esc");
    reveal_strlit("escape");
    reveal_strlit("backspace");
    reveal_strlit("bspace");
    reveal_strlit("bs");
    assert(trim("Up"@) == "Up"@);
    assert(lower_all("Up"@) =~= "up"@);
    assert("up"@[0] != "cr"@[0]);
    assert("up"@[0] != "bs"@[0]);
}

proof fn lemma_key_down()
    ensures
        parse_key("Down"@) == Some(Key::Down),
{
    reveal_strlit("Down");
    reveal_strlit("down");
    reveal_strlit("enter");
    reveal_strlit("cr");
    reveal_strlit("return");
    reveal_strlit("tab");
    reveal_strlit("esc");
    reveal_strlit("escape");
    reveal_strlit("backspace");
    reveal_strlit("bspace");
    reveal_strlit("bs");
    reveal_strlit("up");
    assert(trim("Down"@) == "Down"@);
    assert(lower_all("Down"@) =~= "down"@);
}

proof fn lemma_key_right()
    ensures
        parse_key("Right"@) == Some(Key::Right),
{
    reveal_strlit("Right");
    reveal_strlit("right");
    reveal_strlit("enter");
    reveal_strlit("cr");
    reveal_strlit("return");
    reveal_strlit("tab");
    reveal_strlit("esc");
    reveal_strlit("escape");
    reveal_strlit("backspace");
    reveal_strlit("bspace");
    reveal_strlit("bs");
    reveal_strlit("up");
    reveal_strlit("down");
    reveal_strlit("left");
    assert(trim("Right"@) == "Right"@);
    assert(lower_all("Right"@) =~= "right"@);
    assert("right"@[0] != "enter"@[0]);
}

proof fn lemma_key_left()
    ensures
        parse_key("Left"@) == Some(Key::Left),
{
    reveal_strlit("Left");
    reveal_strlit("left");
    reveal_strlit("enter");
    reveal_strlit("cr");
    reveal_strlit("return");
    reveal_strlit("tab");
    reveal_strlit("esc");
    reveal_strlit("escape");
    reveal_strlit("backspace");
    reveal_strlit("bspace");
    reveal_strlit("bs");
    reveal_strlit("up");
    reveal_strlit("down");
    assert(trim("Left"@) == "Left"@);
    assert(lower_all("Left"@) =~= "left"@);
    assert("left"@[0] != "down"@[0]);
}

/// Named keys parse back to the key that sends the bytes they were read from.
proof fn lemma_name_keys()
    ensures
        parse_key("Enter"@) == Some(Key::Enter),
        parse_key("Tab"@) == Some(Key::Tab),
        parse_key("Backspace"@) == Some(Key::Backspace),
        parse_key("Up"@) == Some(Key::Up),
        parse_key("Down"@) == Some(Key::Down),
        parse_key("Right"@) == Some(Key::Right),
        parse_key("Left"@) == Some(Key::Left),
{
    lemma_key_enter();
    lemma_key_tab();
    lemma_key_backspace();
    lemma_key_up();
    lemma_key_down();
    lemma_key_right();
    lemma_key_left();
}

/// A Ctrl-letter's name parses back to the key that sends its control byte.
proof fn lemma_ctrl_key(b: u8)
    requires
        0x01 <= b <= 0x1a,
    ensures
        parse_key(ctrl_name(b)) matches Some(k) && key_bytes(k) == seq![b],
{
    reveal_strlit("C-");
    reveal_strlit("c-");
    reveal_strlit("enter");
    reveal_strlit("cr");
    reveal_strlit("return");
    reveal_strlit("tab");
    reveal_strlit("esc");
    reveal_strlit("escape");
    reveal_strlit("backspace");
    reveal_strlit("bspace");
    reveal_strlit("bs");
    reveal_strlit("up");
    reveal_strlit("down");
    reveal_strlit("left");
    reveal_strlit("right");
    let c = ((b + 0x60) as u32) as char;
    let n = ctrl_name(b);
    assert(n =~= seq!['C', '-', c]);
    assert('a' <= c <= 'z');
    assert(trim(n) == n);
    assert(lower('C') == 'c');
    assert(lower_all(n) =~= seq!['c', '-', c]);
    let l = lower_all(n);
    assert(l[0] != "tab"@[0] && l[0] != "esc"@[0]);
    assert(named_key(l) is None);
    assert(starts_with(n, "C-"@)) by {
        assert(n.take(2) =~= "C-"@);
    }
    assert(n.skip(2) =~= seq![c]);
    assert(parse_key(n) == Some(Key::Ctrl(c)));
    assert(upper(c) as u32 == b + 0x40);
    let u: u8 = (b + 0x40) as u8;
    assert(u & 0x1f == b) by (bit_vector)
        requires
            u == b + 0x40,
            0x01 <= b <= 0x1a,
    ;
    assert(((upper(c) as u32) as u8) == u);
    assert(key_bytes(Key::Ctrl(c)) =~= seq![b]);
}

/// A recordable byte decodes to one good unit that stands for that byte.
proof fn lemma_byte_tok(b: u8)
    requires
        b != 0x1b,
        0x20 <= b <= 0x7f || (0x01 <= b <= 0x1a && b != 0x08 && b != 0x0a),
    ensures
        byte_toks(b).len() == 1,
        good_tok(byte_toks(b)[0]),
        tok_bytes(byte_toks(b)[0]) == seq![b],
{
    lemma_name_keys();
    if b == 0x0d {
        assert(key_bytes(Key::Enter) =~= seq![b]);
    } else if b == 0x09 {
        assert(key_bytes(Key::Tab) =~= seq![b]);
    } else if b == 0x7f {
        assert(key_bytes(Key::Backspace) =~= seq![b]);
    } else if 0x01 <= b <= 0x1a {
        lemma_ctrl_key(b);
        assert(press_name(ctrl_name(b)));
    }
}

/// Recordable bytes decode completely, into good units that stand for exactly
/// those bytes.
proof fn lemma_scan_recordable(bs: Seq<u8>)
    requires
        recordable(bs),
    ensures
        scan(bs).1 == Seq::<u8>::empty(),
        forall|i: int| 0 <= i < scan(bs).0.len() ==> good_tok(#[trigger] scan(bs).0[i]),
        toks_bytes(scan(bs).0) == bs,
    decreases bs.len(),
{
    if bs.len() > 0 {
        let k: int = if bs[0] == 0x1b {
            3
        } else {
            1
        };
        lemma_scan_recordable(bs.skip(k));
        let (t, r) = scan(bs.skip(k));
        let head: Seq<Tok> = if bs[0] == 0x1b {
            seq![Tok::Press(csi_name(bs[2]))]
        } else {
            byte_toks(bs[0])
        };
        if bs[0] == 0x1b {
            lemma_name_keys();
            reveal_strlit("Up");
            reveal_strlit("Down");
            reveal_strlit("Right");
            reveal_strlit("Left");
            assert(tok_bytes(head[0]) =~= bs.take(3));
            assert(good_tok(head[0]));
        } else {
            lemma_byte_tok(bs[0]);
            assert(bs.take(1) =~= seq![bs[0]]);
        }
        assert(head.len() == 1);
        assert(head.drop_first() =~= Seq::<Tok>::empty());
        assert(toks_bytes(head.drop_first()) == Seq::<u8>::empty());
        assert(toks_bytes(head) =~= bs.take(k));
        assert(scan(bs) == (head + t, r));
        lemma_toks_bytes_append(head, t);
        assert(bs.take(k) + bs.skip(k) =~= bs);
        assert forall|i: int| 0 <= i < (head + t).len() implies good_tok(#[trigger] (head + t)[i]) by {
            if i >= 1 {
                assert((head + t)[i] == t[i - 1]);
            }
        }
    }
}

proof fn lemma_tokens_plain(s: Seq<char>, sep: Sep, cur: Seq<char>)
    requires
        forall|i: int| 0 <= i < s.len() ==> !is_sep(sep, #[trigger] s[i]),
        cur.len() + s.len() > 0,
    ensures
        tokens_from(s, sep, cur) == seq![cur + s],
    decreases s.len(),
{
    if s.len() == 0 {
        assert(cur + s =~= cur);
    } else {
        assert(!is_sep(sep, s[0]));
        lemma_tokens_plain(s.drop_first(), sep, cur.push(s[0]));
        assert(cur.push(s[0]) + s.drop_first() =~= cur + s);
    }
}

/// A line with no line feed, and no carriage return at its end.
pub open spec fn one_line(l: Seq<char>) -> bool {
    &&& forall|i: int| 0 <= i < l.len() ==> l[i] != '\n'
    &&& l.len() > 0 ==> l.last() != '\r'
}

/// A name the recorder writes is a key name made of letters and `-`.
proof fn lemma_name_chars(n: Seq<char>)
    requires
        press_name(n),
    ensures
        parse_key(n) is Some,
        n.len() > 0,
        forall|i: int| 0 <= i < n.len() ==> 'A' <= #[trigger] n[i] <= 'z' || n[i] == '-',
{
    reveal_strlit("Enter");
    reveal_strlit("Tab");
    reveal_strlit("Backspace");
    reveal_strlit("Up");
    reveal_strlit("Down");
    reveal_strlit("Right");
    reveal_strlit("Left");
    lemma_name_keys();
    if exists|b: u8| 0x01 <= b <= 0x1a && n == #[trigger] ctrl_name(b) {
        let b = choose|b: u8| 0x01 <= b <= 0x1a && n == #[trigger] ctrl_name(b);
        lemma_ctrl_key(b);
        reveal_strlit("C-");
        let c = ((b + 0x60) as u32) as char;
        assert(n =~= seq!['C', '-', c]);
        assert('a' <= c <= 'z');
    }
}

/// A `press` line for a name the recorder writes is one step pressing that
/// name's key.
proof fn lemma_press_line(n: Seq<char>)
    requires
        press_name(n),
    ensures
        parse_key(n) is Some,
        parse_line("press "@ + n) == LineV::Step(StepV::Press(seq![parse_key(n)->0])),
        one_line("press "@ + n),
{
    lemma_name_chars(n);
    reveal_strlit("press ");
    reveal_strlit("press");
    let l = "press "@ + n;
    assert(l[0] == 'p');
    assert(trim_start(l) == l);
    assert(l[5] == ' ');
    assert(find_ws_from(l, 5) == Some(5int));
    assert(find_ws_from(l, 4) == Some(5int));
    assert(find_ws_from(l, 3) == Some(5int));
    assert(find_ws_from(l, 2) == Some(5int));
    assert(find_ws_from(l, 1) == Some(5int));
    assert(find_ws_from(l, 0) == Some(5int));
    assert(l.take(5) =~= "press"@);
    assert(l.skip(6) =~= n);
    lemma_tokens_plain(n, Sep::KeyDelims, seq![]);
    assert(Seq::<char>::empty() + n =~= n);
    let k = parse_key(n)->0;
    assert(parse_keys_spec(n) == Some(seq![k])) by {
        let ts = tokens(n, Sep::KeyDelims);
        assert(ts == seq![n]);
        assert(Seq::new(ts.len(), |i: int| parse_key(ts[i])->0) =~= seq![k]);
    }
    assert(one_line(l)) by {
        assert forall|i: int| 0 <= i < l.len() implies l[i] != '\n' by {
            if i >= 6 {
                assert(l[i] == n[i - 6]);
            }
        }
        assert(l.last() == n.last());
    }
}

/// The characters of ASCII bytes, one per byte.
pub open spec fn ascii_text(bs: Seq<u8>) -> Seq<char> {
    bs.map_values(|b: u8| b as char)
}

/// Bytes that are all printable ASCII (space to `~`).
pub open spec fn printable(bs: Seq<u8>) -> bool {
    forall|i: int| 0 <= i < bs.len() ==> 0x20 <= #[trigger] bs[i] <= 0x7e
}

/// Typed text whose first word a `type` line would read as one of its flags.
pub open spec fn flag_first(t: Seq<char>) -> bool {
    let ws = tokens(trim_start(t), Sep::Whitespace);
    ws.len() > 0 && (ws[0] == "--paste"@ || ws[0] == "--from-env"@)
}

/// Printable ASCII bytes are valid UTF-8 and decode to one character each;
/// encoding those characters gives the bytes back.
proof fn lemma_ascii(bs: Seq<u8>)
    requires
        printable(bs),
    ensures
        valid_utf8(bs),
        decode_utf8(bs) == ascii_text(bs),
        encode_utf8(ascii_text(bs)) == bs,
        literal_text(bs) == ascii_text(bs),
        forall|i: int| 0 <= i < bs.len() ==> ' ' <= #[trigger] ascii_text(bs)[i] <= '~',
{
    let cs = ascii_text(bs);
    assert forall|i: int| 0 <= i < cs.len() implies '\0' <= #[trigger] cs[i] <= '\u{7f}' && ' '
        <= cs[i] <= '~' by {
        assert(0x20 <= bs[i] <= 0x7e);
        assert(cs[i] == bs[i] as char);
    }
    assert(is_ascii_chars(cs));
    is_ascii_chars_encode_utf8(cs);
    assert forall|i: int| 0 <= i < bs.len() implies encode_utf8(cs)[i] == bs[i] by {
        assert(cs[i] as u8 == encode_utf8(cs)[i]);
        assert(cs[i] == bs[i] as char);
    }
    assert(encode_utf8(cs) =~= bs);
    encode_utf8_valid_utf8(cs);
    encode_utf8_decode_utf8(cs);
}

/// A `type` line over printable text that does not open with a flag types
/// exactly that text, key by key.
proof fn lemma_type_line(t: Seq<char>)
    requires
        t.len() > 0,
        forall|i: int| 0 <= i < t.len() ==> ' ' <= #[trigger] t[i] <= '~',
        !flag_first(t),
    ensures
        parse_line("type "@ + t) == LineV::Step(
            StepV::Type { source: SourceV::Literal(t), paste: false },
        ),
        one_line("type "@ + t),
{
    reveal_strlit("type ");
    reveal_strlit("type");
    reveal_strlit("press");
    reveal_strlit("--paste");
    reveal_strlit("--from-env");
    let l = "type "@ + t;
    assert(l[0] == 't');
    assert(trim_start(l) == l);
    assert(l[4] == ' ');
    assert(find_ws_from(l, 4) == Some(4int));
    assert(find_ws_from(l, 3) == Some(4int));
    assert(find_ws_from(l, 2) == Some(4int));
    assert(find_ws_from(l, 1) == Some(4int));
    assert(find_ws_from(l, 0) == Some(4int));
    assert(l.take(4) =~= "type"@);
    assert(l.skip(5) =~= t);
    assert("type"@ != "press"@);
    assert(parse_type_spec(t) == LineV::Step(
        StepV::Type { source: SourceV::Literal(t), paste: false },
    )) by {
        let ws = tokens(trim_start(t), Sep::Whitespace);
        if ws.len() == 0 {
            assert(Seq::<char>::empty() != "--paste"@);
            assert(Seq::<char>::empty() != "--from-env"@);
        }
    }
    assert(parse_line(l) == parse_type_spec(t));
    assert(one_line(l)) by {
        assert forall|i: int| 0 <= i < l.len() implies l[i] != '\n' by {
            if i >= 5 {
                assert(l[i] == t[i - 5]);
            }
        }
        assert(l.last() == t.last());
    }
}

proof fn lemma_lines_one(s: Seq<char>, cur: Seq<char>)
    requires
        forall|i: int| 0 <= i < s.len() ==> s[i] != '\n',
    ensures
        lines_from(s + seq!['\n'], cur) == seq![strip_cr(cur + s)],
    decreases s.len(),
{
    if s.len() == 0 {
        assert(s + seq!['\n'] =~= seq!['\n']);
        assert(seq!['\n'].drop_first() =~= Seq::<char>::empty());
        assert(seq!['\n'][0] == '\n');
        assert(lines_from(Seq::<char>::empty(), Seq::<char>::empty()) =~= Seq::<Seq<char>>::empty());
        assert(cur + s =~= cur);
        assert(seq![strip_cr(cur)] + Seq::<Seq<char>>::empty() =~= seq![strip_cr(cur)]);
    } else {
        assert((s + seq!['\n'])[0] == s[0]);
        assert(s[0] != '\n');
        assert((s + seq!['\n']).drop_first() =~= s.drop_first() + seq!['\n']);
        lemma_lines_one(s.drop_first(), cur.push(s[0]));
        assert(cur.push(s[0]) + s.drop_first() =~= cur + s);
    }
}

proof fn lemma_lines_append(x: Seq<char>, y: Seq<char>, cur: Seq<char>)
    requires
        x.len() > 0,
        x.last() == '\n',
    ensures
        lines_from(x + y, cur) == lines_from(x, cur) + lines_from(y, seq![]),
    decreases x.len(),
{
    assert((x + y)[0] == x[0]);
    assert((x + y).drop_first() =~= x.drop_first() + y);
    if x[0] == '\n' {
        if x.len() == 1 {
            assert(x.drop_first() + y =~= y);
            assert(x.drop_first() =~= Seq::<char>::empty());
            assert(seq![strip_cr(cur)] + Seq::<Seq<char>>::empty() =~= seq![strip_cr(cur)]);
        } else {
            lemma_lines_append(x.drop_first(), y, seq![]);
            assert(seq![strip_cr(cur)] + (lines_from(x.drop_first(), seq![]) + lines_from(y, seq![]))
                =~= (seq![strip_cr(cur)] + lines_from(x.drop_first(), seq![])) + lines_from(y, seq![]));
        }
    } else {
        lemma_lines_append(x.drop_first(), y, cur.push(x[0]));
    }
}

/// Lines written out one per line, each followed by a newline, read back as
/// the same lines.
proof fn lemma_lines_text(ls: Seq<Seq<char>>)
    requires
        forall|i: int| 0 <= i < ls.len() ==> one_line(#[trigger] ls[i]),
    ensures
        lines(script_text(ls)) == ls,
    decreases ls.len(),
{
    reveal_strlit("\n");
    if ls.len() > 0 {
        let init = ls.drop_last();
        let last = ls.last();
        assert(one_line(ls[ls.len() - 1]));
        assert forall|i: int| 0 <= i < init.len() implies one_line(#[trigger] init[i]) by {
            assert(init[i] == ls[i]);
        }
        lemma_lines_text(init);
        let x = script_text(init);
        assert("\n"@ =~= seq!['\n']);
        assert(script_text(ls) =~= x + (last + seq!['\n']));
        lemma_lines_one(last, seq![]);
        assert(Seq::<char>::empty() + last =~= last);
        assert(strip_cr(last) == last);
        if init.len() == 0 {
            assert(x =~= Seq::<char>::empty());
            assert(x + (last + seq!['\n']) =~= last + seq!['\n']);
            assert(ls =~= seq![last]);
        } else {
            assert(x.last() == '\n');
            lemma_lines_append(x, last + seq!['\n'], seq![]);
            assert(ls =~= init + seq![last]);
        }
    }
}

proof fn lemma_steps_upto(ls: Seq<Seq<char>>, ss: Seq<StepV>, n: int)
    requires
        ls.len() == ss.len(),
        forall|i: int| 0 <= i < ls.len() ==> parse_line(#[trigger] ls[i]) == LineV::Step(ss[i]),
        0 <= n <= ls.len(),
    ensures
        steps_upto(ls, n) == Some(ss.take(n)),
    decreases n,
{
    if n > 0 {
        lemma_steps_upto(ls, ss, n - 1);
        assert(parse_line(ls[n - 1]) == LineV::Step(ss[n - 1]));
        assert(ss.take(n - 1).push(ss[n - 1]) =~= ss.take(n));
    } else {
        assert(ss.take(0) =~= Seq::<StepV>::empty());
    }
}

/// The step a `type` line over a literal run denotes.
pub open spec fn typed_step(lit: Seq<u8>) -> StepV {
    StepV::Type { source: SourceV::Literal(ascii_text(lit)), paste: false }
}

/// The steps so far, with the pending literal run closed as a `type` step.
pub open spec fn flush_steps(ss: Seq<StepV>, lit: Seq<u8>) -> Seq<StepV> {
    if lit.len() == 0 {
        ss
    } else {
        ss.push(typed_step(lit))
    }
}

/// The steps the lines of a recording of units `ts` denote, built alongside
/// them, and the literal run still open.
pub open spec fn rec_steps(ts: Seq<Tok>) -> (Seq<StepV>, Seq<u8>)
    decreases ts.len(),
{
    if ts.len() == 0 {
        (seq![], seq![])
    } else {
        let (ss, lit) = rec_steps(ts.drop_last());
        match ts.last() {
            Tok::Press(n) => (flush_steps(ss, lit).push(StepV::Press(seq![parse_key(n)->0])), seq![]),
            Tok::Lit(b) => (ss, lit.push(b)),
        }
    }
}

/// The bytes a step sends when replayed: its keys' bytes, or its text's
/// UTF-8 bytes.
pub open spec fn step_bytes(st: StepV) -> Seq<u8> {
    match st {
        StepV::Press(ks) => keys_bytes(ks),
        StepV::Type { source: SourceV::Literal(t), .. } => encode_utf8(t),
        _ => seq![],
    }
}

/// The bytes a script's steps send when replayed, in order.
pub open spec fn steps_bytes(ss: Seq<StepV>) -> Seq<u8>
    decreases ss.len(),
{
    if ss.len() == 0 {
        seq![]
    } else {
        steps_bytes(ss.drop_last()) + step_bytes(ss.last())
    }
}

/// Line `l` of a recording denotes step `st`: a one-key `press` line that
/// parses to it, or `type` followed by a printable run.
pub open spec fn line_denotes(l: Seq<char>, st: StepV) -> bool {
    match st {
        StepV::Press(ks) => ks.len() == 1 && parse_line(l) == LineV::Step(st) && one_line(l),
        StepV::Type { source: SourceV::Literal(t), paste } => {
            &&& !paste
            &&& t.len() > 0
            &&& forall|i: int| 0 <= i < t.len() ==> ' ' <= #[trigger] t[i] <= '~'
            &&& l == "type "@ + t
        },
        _ => false,
    }
}

proof fn lemma_flush(ls: Seq<Seq<char>>, ss: Seq<StepV>, lit: Seq<u8>)
    requires
        printable(lit),
        ls.len() == ss.len(),
        forall|i: int| 0 <= i < ls.len() ==> line_denotes(#[trigger] ls[i], ss[i]),
    ensures
        flushed(ls, lit).len() == flush_steps(ss, lit).len(),
        forall|i: int|
            0 <= i < flushed(ls, lit).len() ==> line_denotes(
                #[trigger] flushed(ls, lit)[i],
                flush_steps(ss, lit)[i],
            ),
        steps_bytes(flush_steps(ss, lit)) == steps_bytes(ss) + lit,
{
    if lit.len() == 0 {
        assert(steps_bytes(ss) + lit =~= steps_bytes(ss));
    } else {
        lemma_ascii(lit);
        let fl = flushed(ls, lit);
        let fs = flush_steps(ss, lit);
        assert forall|i: int| 0 <= i < fl.len() implies line_denotes(#[trigger] fl[i], fs[i]) by {
            if i < ls.len() {
                assert(fl[i] == ls[i] && fs[i] == ss[i]);
            } else {
                assert(fl[i] == "type "@ + ascii_text(lit));
                assert(fs[i] == typed_step(lit));
            }
        }
        assert(fs.drop_last() =~= ss);
    }
}

/// Folding good units keeps every line denoting its step, the open run
/// printable, and the steps' bytes followed by the open run equal to the
/// units' bytes.
proof fn lemma_fold(ts: Seq<Tok>)
    requires
        forall|i: int| 0 <= i < ts.len() ==> good_tok(#[trigger] ts[i]),
    ensures
        ({
            let (ls, lit) = apply_toks((seq![], seq![]), ts);
            let (ss, lit2) = rec_steps(ts);
            &&& lit == lit2
            &&& printable(lit)
            &&& ls.len() == ss.len()
            &&& forall|i: int| 0 <= i < ls.len() ==> line_denotes(#[trigger] ls[i], ss[i])
            &&& steps_bytes(ss) + lit == toks_bytes(ts)
        }),
    decreases ts.len(),
{
    if ts.len() == 0 {
        assert(Seq::<u8>::empty() + Seq::<u8>::empty() =~= Seq::<u8>::empty());
    } else {
        let init = ts.drop_last();
        let last = ts.last();
        assert forall|i: int| 0 <= i < init.len() implies good_tok(#[trigger] init[i]) by {
            assert(init[i] == ts[i]);
        }
        lemma_fold(init);
        let (ls, lit) = apply_toks((seq![], seq![]), init);
        let (ss, _l2) = rec_steps(init);
        assert(good_tok(ts[ts.len() - 1]));
        assert(ts =~= init + seq![last]);
        lemma_toks_bytes_append(init, seq![last]);
        assert(seq![last].drop_first() =~= Seq::<Tok>::empty());
        assert(seq![last][0] == last);
        assert(toks_bytes(Seq::<Tok>::empty()) == Seq::<u8>::empty());
        assert(toks_bytes(seq![last]) =~= tok_bytes(last) + Seq::<u8>::empty());
        assert(toks_bytes(seq![last]) =~= tok_bytes(last));
        match last {
            Tok::Press(n) => {
                lemma_press_line(n);
                lemma_flush(ls, ss, lit);
                if lit.len() > 0 {
                    lemma_ascii(lit);
                }
                let k = parse_key(n)->0;
                let fl = flushed(ls, lit);
                let fs = flush_steps(ss, lit);
                let ls2 = fl.push("press "@ + n);
                let ss2 = fs.push(StepV::Press(seq![k]));
                assert forall|i: int| 0 <= i < ls2.len() implies line_denotes(#[trigger] ls2[i], ss2[i]) by {
                    if i < fl.len() {
                        assert(ls2[i] == fl[i] && ss2[i] == fs[i]);
                    }
                }
                assert(seq![k].drop_last() =~= Seq::<Key>::empty());
                assert(seq![k].last() == k);
                assert(keys_bytes(Seq::<Key>::empty()) == Seq::<u8>::empty());
                assert(keys_bytes(seq![k]) =~= Seq::<u8>::empty() + key_bytes(k));
                assert(keys_bytes(seq![k]) =~= key_bytes(k));
                assert(ss2.drop_last() =~= fs);
                assert(Seq::<u8>::empty() =~= seq![]);
                assert(steps_bytes(ss2) + Seq::<u8>::empty() =~= (steps_bytes(ss) + lit) + key_bytes(k));
            },
            Tok::Lit(b) => {
                assert(printable(lit.push(b))) by {
                    assert forall|i: int| 0 <= i < lit.push(b).len() implies 0x20 <= #[trigger] lit.push(b)[i] <= 0x7e by {
                        if i < lit.len() {
                            assert(lit.push(b)[i] == lit[i]);
                        }
                    }
                }
                assert(steps_bytes(ss) + lit.push(b) =~= (steps_bytes(ss) + lit) + seq![b]);
            },
        }
    }
}

/// The script lines a fresh recorder fed `bytes` finishes with.
pub open spec fn recorded_lines(bytes: Seq<u8>) -> Seq<Seq<char>> {
    let r = feed_spec(rec_empty(), bytes);
    flushed(r.lines, r.literal)
}

/// No `type` line of `ls` opens its text with a word that `type` reads as a
/// flag (`--paste`, `--from-env`).
pub open spec fn plain_typing(ls: Seq<Seq<char>>) -> bool {
    forall|i: int|
        0 <= i < ls.len() && (#[trigger] ls[i]).len() >= 5 && ls[i].take(5) == "type "@
            ==> !flag_first(ls[i].skip(5))
}

/// Record once, replay forever: a session typed as recordable bytes, recorded
/// by a fresh [`ScriptRecorder`](crate::record::ScriptRecorder) and parsed
/// back, is a script of one-key `press` steps and plain `type` steps that,
/// replayed in order, sends exactly the bytes that were recorded. The one
/// exception is a typed run whose first word is a `type` flag, which the
/// script reads as that flag.
pub proof fn lemma_recording_replays(bytes: Seq<u8>)
    requires
        recordable(bytes),
        plain_typing(recorded_lines(bytes)),
    ensures
        script_steps(finish_spec(feed_spec(rec_empty(), bytes))) matches Some(ss) && {
            &&& steps_bytes(ss) == bytes
            &&& forall|i: int|
                0 <= i < ss.len() ==> (#[trigger] ss[i] matches StepV::Press(ks) && ks.len() == 1)
                    || (ss[i] matches StepV::Type { source: SourceV::Literal(_), paste } && !paste)
        },
{
    reveal_strlit("type ");
    lemma_scan_recordable(bytes);
    assert(rec_empty().pending + bytes =~= bytes);
    let ts = scan(bytes).0;
    lemma_fold(ts);
    let (ls, lit) = apply_toks((seq![], seq![]), ts);
    let (ss, _l2) = rec_steps(ts);
    lemma_flush(ls, ss, lit);
    let fl = flushed(ls, lit);
    let fs = flush_steps(ss, lit);
    assert(recorded_lines(bytes) == fl);
    assert forall|i: int| 0 <= i < fl.len() implies parse_line(#[trigger] fl[i]) == LineV::Step(
        fs[i],
    ) && one_line(fl[i]) by {
        assert(line_denotes(fl[i], fs[i]));
        match fs[i] {
            StepV::Type { source: SourceV::Literal(t), .. } => {
                assert(fl[i].take(5) =~= "type "@);
                assert(fl[i].skip(5) =~= t);
                lemma_type_line(t);
            },
            _ => {},
        }
    }
    lemma_lines_text(fl);
    lemma_steps_upto(fl, fs, fl.len() as int);
    assert(fs.take(fs.len() as int) =~= fs);
    assert(finish_spec(feed_spec(rec_empty(), bytes)) == script_text(fl));
    assert forall|i: int| 0 <= i < fs.len() implies (#[trigger] fs[i] matches StepV::Press(ks) && ks.len()
        == 1) || (fs[i] matches StepV::Type { source: SourceV::Literal(_), paste } && !paste) by {
        assert(line_denotes(fl[i], fs[i]));
    }
}

} // verus!
