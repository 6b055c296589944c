//! asciinema v2 "cast" recordings of a driven run: the header a cast opens
//! with, the shell command that taps a tmux pane, and the pane size read back
//! from tmux. Writing the timestamped output events, which carry fractional
//! seconds, is left to the program that owns the file.
use crate::json::{Json, JsonV};
use crate::text::{
    chars_of, dec, parse_unsigned, push_char, push_dec, push_str, tokenize, tokens, unsigned_value,
    views, Sep,
};
use vstd::prelude::*;

verus! {

/// The size a cast assumes when a pane's size cannot be read.
pub const DEFAULT_WIDTH: u16 = 80u16;

/// See [`DEFAULT_WIDTH`].
pub const DEFAULT_HEIGHT: u16 = 24u16;

/// The v2 header of a cast: `{"height":..,"title":"panedrive run","version":2,"width":..}`.
pub open spec fn header_view(width: nat, height: nat) -> JsonV {
    JsonV::Object(
        seq![
            ("height"@, JsonV::Number(dec(height))),
            ("title"@, JsonV::Str("panedrive run"@)),
            ("version"@, JsonV::Number("2"@)),
            ("width"@, JsonV::Number(dec(width))),
        ],
    )
}

fn entry(key: &str, value: Json) -> (r: (String, Json))
    ensures
        r.0@ == key@,
        r.1 == value,
{
    let mut k = String::new();
    push_str(&mut k, key);
    (k, value)
}

fn number(n: u16) -> (r: Json)
    ensures
        r@ == JsonV::Number(dec(n as nat)),
{
    let mut t = String::new();
    push_dec(&mut t, n as u128);
    Json::Number(t)
}

/// The header line of a cast of a `width` x `height` terminal.
pub fn cast_header(width: u16, height: u16) -> (r: Json)
    ensures
        r@ == header_view(width as nat, height as nat),
{
    let mut es: Vec<(String, Json)> = Vec::new();
    es.push(entry("height", number(height)));
    es.push(entry("title", Json::string("panedrive run")));
    es.push(entry("version", Json::number("2")));
    es.push(entry("width", number(width)));
    let r = Json::Object(es);
    assert(r@->Object_0 =~= header_view(width as nat, height as nat)->Object_0);
    r
}

/// `s` with each `'` written as `'\''`, the way to carry it inside single
/// quotes in a POSIX shell.
pub open spec fn quote_body(s: Seq<char>) -> Seq<char>
    decreases s.len(),
{
    if s.len() == 0 {
        seq![]
    } else {
        quote_body(s.drop_last()) + if s.last() == '\'' {
            seq!['\'', '\\', '\'', '\'']
        } else {
            seq![s.last()]
        }
    }
}

/// Single-quote a path for a shell command (a tmux `pipe-pane` command).
pub fn shell_quote(path: &str) -> (r: String)
    ensures
        r@ == seq!['\''] + quote_body(path@) + seq!['\''],
{
    let cs = chars_of(path);
    let mut out = String::new();
    push_char(&mut out, '\'');
    let mut i: usize = 0;
    while i < cs.len()
        invariant
            i <= cs@.len(),
            cs@ == path@,
            out@ == seq!['\''] + quote_body(path@.take(i as int)),
        decreases cs@.len() - i,
    {
        let c = cs[i];
        assert(path@.take(i + 1).drop_last() =~= path@.take(i as int));
        if c == '\'' {
            push_char(&mut out, '\'');
            push_char(&mut out, '\\');
            push_char(&mut out, '\'');
            push_char(&mut out, '\'');
        } else {
            push_char(&mut out, c);
        }
        assert(out@ =~= seq!['\''] + quote_body(path@.take(i + 1)));
        i = i + 1;
    }
    assert(path@.take(cs@.len() as int) =~= path@);
    push_char(&mut out, '\'');
    out
}

/// The command a tmux pane's output is piped to: append to `path`.
pub fn pipe_command(path: &str) -> (r: String)
    ensures
        r@ == "cat >> "@ + seq!['\''] + quote_body(path@) + seq!['\''],
{
    let mut out = String::new();
    push_str(&mut out, "cat >> ");
    let q = shell_quote(path);
    push_str(&mut out, q.as_str());
    assert(out@ =~= "cat >> "@ + seq!['\''] + quote_body(path@) + seq!['\'']);
    out
}

/// A `u16` as `u16::from_str` reads it.
pub open spec fn u16_value(w: Seq<char>) -> Option<nat> {
    match unsigned_value(w) {
        Some(n) => if n <= u16::MAX {
            Some(n)
        } else {
            None
        },
        None => None,
    }
}

/// The size `tmux display-message -p '#{pane_width} #{pane_height}'` printed:
/// its first two words as `width height`, or 80x24 when they are not both
/// sizes.
pub open spec fn pane_size_of(out: Seq<char>) -> (nat, nat) {
    let ws = tokens(out, Sep::Whitespace);
    if ws.len() >= 2 && u16_value(ws[0]) is Some && u16_value(ws[1]) is Some {
        (u16_value(ws[0])->0, u16_value(ws[1])->0)
    } else {
        (80, 24)
    }
}

/// Read a pane's `width height` from tmux's output, defaulting to 80x24.
pub fn parse_pane_size(out: &str) -> (r: (u16, u16))
    ensures
        (r.0 as nat, r.1 as nat) == pane_size_of(out@),
{
    let cs = chars_of(out);
    let ws = tokenize(&cs, Sep::Whitespace);
    if ws.len() >= 2 {
        let w = parse_unsigned(ws[0].as_slice(), 65535);
        let h = parse_unsigned(ws[1].as_slice(), 65535);
        assert(views(ws@)[0] == ws@[0]@);
        assert(views(ws@)[1] == ws@[1]@);
        match (w, h) {
            (Some(a), Some(b)) => {
                return (a as u16, b as u16);
            },
            _ => {},
        }
    }
    (DEFAULT_WIDTH, DEFAULT_HEIGHT)
}

} // verus!
