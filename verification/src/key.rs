//! Logical, backend-agnostic key presses.
//!
//! The driver speaks [`Key`]; each backend translates it into that host's wire
//! encoding. Parsing accepts a small human spec (`Enter`, `Down`, `C-c`, or a
//! literal character) so the CLI and scripts stay readable.
use crate::text::{
    chars_of, has_prefix, lower_all, lower_chars, push_char, push_chars, push_str, starts_with,
    to_upper, tokenize, tokens, trim, trim_range, upper, views, Sep,
};
use vstd::prelude::*;
use vstd::utf8::encode_utf8;

verus! {

/// A single logical key press, independent of any terminal host.
#[derive(Debug, Clone, Copy, PartialEq, Eq, Structural)]
pub enum Key {
    /// A literal printable character.
    Char(char),
    /// Enter / Return.
    Enter,
    /// Tab.
    Tab,
    /// Backspace.
    Backspace,
    /// Escape.
    Esc,
    /// Arrow up.
    Up,
    /// Arrow down.
    Down,
    /// Arrow left.
    Left,
    /// Arrow right.
    Right,
    /// `Ctrl` + a letter, e.g. `Key::Ctrl('c')`.
    Ctrl(char),
}

/// How a [`Key`] is handed to `tmux send-keys`: either a named key (`Enter`,
/// `C-c`) or a literal character sent with `-l`.
#[derive(Debug, Clone, PartialEq, Eq)]
pub enum TmuxKey {
    /// A tmux key name.
    Named(String),
    /// A literal character.
    Literal(char),
}

/// How a [`Key`] is handed to `zellij action`: printable characters go through
/// `write-chars`, everything else through `write` as the raw terminal bytes.
#[derive(Debug, Clone, PartialEq, Eq)]
pub enum ZellijKey {
    /// A literal character, delivered with `zellij action write-chars`.
    Chars(char),
    /// The raw bytes of a named/control key, delivered with `zellij action write`.
    Bytes(Vec<u8>),
}

/// The key a lower-cased name denotes, if it is one of the named keys.
pub open spec fn named_key(l: Seq<char>) -> Option<Key> {
    if l == "enter"@ || l == "cr"@ || l == "return"@ {
        Some(Key::Enter)
    } else if l == "tab"@ {
        Some(Key::Tab)
    } else if l == "esc"@ || l == "escape"@ {
        Some(Key::Esc)
    } else if l == "backspace"@ || l == "bspace"@ || l == "bs"@ {
        Some(Key::Backspace)
    } else if l == "up"@ {
        Some(Key::Up)
    } else if l == "down"@ {
        Some(Key::Down)
    } else if l == "left"@ {
        Some(Key::Left)
    } else if l == "right"@ {
        Some(Key::Right)
    } else {
        None
    }
}

/// The only character of `s`, if it has exactly one.
pub open spec fn one_char(s: Seq<char>) -> Option<char> {
    if s.len() == 1 {
        Some(s[0])
    } else {
        None
    }
}

/// The key a token denotes: after trimming, a case-insensitive key name, then
/// `C-x` / `c-x` for Ctrl+x, then any single character as itself.
pub open spec fn parse_key(token: Seq<char>) -> Option<Key> {
    let t = trim(token);
    match named_key(lower_all(t)) {
        Some(k) => Some(k),
        None => if starts_with(t, "C-"@) || starts_with(t, "c-"@) {
            match one_char(t.skip(2)) {
                Some(c) => Some(Key::Ctrl(c)),
                None => None,
            }
        } else {
            match one_char(t) {
                Some(c) => Some(Key::Char(c)),
                None => None,
            }
        },
    }
}

/// The keys of a spec: every non-empty piece between spaces, commas and tabs
/// must be a key, else the spec has none.
pub open spec fn parse_keys_spec(s: Seq<char>) -> Option<Seq<Key>> {
    let ts = tokens(s, Sep::KeyDelims);
    if forall|i: int| 0 <= i < ts.len() ==> (#[trigger] parse_key(ts[i])) is Some {
        Some(Seq::new(ts.len(), |i: int| parse_key(ts[i])->0))
    } else {
        None
    }
}

/// The bytes a terminal sends for a key.
pub open spec fn key_bytes(k: Key) -> Seq<u8> {
    match k {
        Key::Char(c) => encode_utf8(seq![c]),
        Key::Enter => seq![0x0du8],
        Key::Tab => seq![0x09u8],
        Key::Backspace => seq![0x7fu8],
        Key::Esc => seq![0x1bu8],
        Key::Up => seq![0x1bu8, 0x5bu8, 0x41u8],
        Key::Down => seq![0x1bu8, 0x5bu8, 0x42u8],
        Key::Right => seq![0x1bu8, 0x5bu8, 0x43u8],
        Key::Left => seq![0x1bu8, 0x5bu8, 0x44u8],
        Key::Ctrl(c) => seq![((upper(c) as u32) as u8) & 0x1fu8],
    }
}

/// The tmux name of a non-literal key.
pub open spec fn tmux_name(k: Key) -> Seq<char> {
    match k {
        Key::Char(c) => seq![c],
        Key::Enter => "Enter"@,
        Key::Tab => "Tab"@,
        Key::Backspace => "BSpace"@,
        Key::Esc => "Escape"@,
        Key::Up => "Up"@,
        Key::Down => "Down"@,
        Key::Left => "Left"@,
        Key::Right => "Right"@,
        Key::Ctrl(c) => "C-"@.push(c),
    }
}

/// The tmux form of a key: a literal for a character, else its name.
pub open spec fn tmux_of(k: Key, t: TmuxKey) -> bool {
    match k {
        Key::Char(c) => t == TmuxKey::Literal(c),
        _ => t matches TmuxKey::Named(n) && n@ == tmux_name(k),
    }
}

/// Whether `a` holds exactly the characters of `b`.
pub fn eq_str(a: &[char], b: &str) -> (r: bool)
    ensures
        r == (a@ == b@),
{
    let bv = chars_of(b);
    if a.len() != bv.len() {
        return false;
    }
    let mut i: usize = 0;
    while i < a.len()
        invariant
            bv@ == b@,
            a@.len() == bv@.len(),
            i <= a@.len(),
            forall|k: int| 0 <= k < i ==> a@[k] == bv@[k],
        decreases a@.len() - i,
    {
        if a[i] != bv[i] {
            assert(a@[i as int] != bv@[i as int]);
            return false;
        }
        i = i + 1;
    }
    assert(a@ =~= bv@);
    true
}

/// The only character of `s[from..to]`, if it has exactly one.
pub fn exactly_one_char(s: &[char], from: usize, to: usize) -> (r: Option<char>)
    requires
        from <= to <= s@.len(),
    ensures
        r == one_char(s@.subrange(from as int, to as int)),
{
    if to - from == 1 {
        Some(s[from])
    } else {
        None
    }
}

fn named(l: &[char]) -> (r: Option<Key>)
    ensures
        r == named_key(l@),
{
    if eq_str(l, "enter") || eq_str(l, "cr") || eq_str(l, "return") {
        Some(Key::Enter)
    } else if eq_str(l, "tab") {
        Some(Key::Tab)
    } else if eq_str(l, "esc") || eq_str(l, "escape") {
        Some(Key::Esc)
    } else if eq_str(l, "backspace") || eq_str(l, "bspace") || eq_str(l, "bs") {
        Some(Key::Backspace)
    } else if eq_str(l, "up") {
        Some(Key::Up)
    } else if eq_str(l, "down") {
        Some(Key::Down)
    } else if eq_str(l, "left") {
        Some(Key::Left)
    } else if eq_str(l, "right") {
        Some(Key::Right)
    } else {
        None
    }
}

/// Whether `s[from..to]` starts with the characters of `p`.
pub fn range_starts_with(s: &[char], from: usize, to: usize, p: &str) -> (r: bool)
    requires
        from <= to <= s@.len(),
    ensures
        r == starts_with(s@.subrange(from as int, to as int), p@),
{
    let pv = chars_of(p);
    has_prefix(&s[from..to], &pv)
}

/// Parse one key token held in `s[from..to]`.
pub fn parse_key_range(s: &[char], from: usize, to: usize) -> (r: Result<Key, String>)
    requires
        from <= to <= s@.len(),
    ensures
        r is Ok <==> parse_key(s@.subrange(from as int, to as int)) is Some,
        r matches Ok(k) ==> parse_key(s@.subrange(from as int, to as int)) == Some(k),
{
    let ghost tok = s@.subrange(from as int, to as int);
    let (a, b) = trim_range(s, from, to);
    let lowered = lower_chars(&s[a..b]);
    assert(trim(tok) == s@.subrange(a as int, b as int));
    if let Some(k) = named(&lowered) {
        return Ok(k);
    }
    proof {
        reveal_strlit("C-");
        reveal_strlit("c-");
    }
    if range_starts_with(s, a, b, "C-") || range_starts_with(s, a, b, "c-") {
        assert(s@.subrange(a as int, b as int).skip(2) =~= s@.subrange(a + 2, b as int));
        match exactly_one_char(s, a + 2, b) {
            Some(c) => Ok(Key::Ctrl(c)),
            None => {
                let mut msg = String::new();
                push_str(&mut msg, "expected one char after `C-`, got ");
                push_chars(&mut msg, s, a, b);
                Err(msg)
            },
        }
    } else {
        match exactly_one_char(s, a, b) {
            Some(c) => Ok(Key::Char(c)),
            None => {
                let mut msg = String::new();
                push_str(&mut msg, "unknown key ");
                push_chars(&mut msg, s, a, b);
                Err(msg)
            },
        }
    }
}

/// Encode a character as UTF-8.
pub fn utf8_bytes(c: char) -> (r: Vec<u8>)
    ensures
        r@ == encode_utf8(seq![c]),
{
    let u = c as u32;
    proof {
        vstd::utf8::char_is_scalar(c);
        assert(seq![c].drop_first() =~= Seq::<char>::empty());
        assert(encode_utf8(seq![c]) =~= vstd::utf8::encode_scalar(u) + encode_utf8(
            Seq::<char>::empty(),
        ));
        assert(encode_utf8(seq![c]) =~= vstd::utf8::encode_scalar(u));
    }
    if u <= 0x7F {
        vec![#[verifier::truncate] ((u & 0x7F) as u8)]
    } else if u <= 0x7FF {
        vec![
            0xC0u8 | #[verifier::truncate] (((u >> 6) & 0x1F) as u8),
            0x80u8 | #[verifier::truncate] ((u & 0x3F) as u8),
        ]
    } else if u <= 0xFFFF {
        vec![
            0xE0u8 | #[verifier::truncate] (((u >> 12) & 0x0F) as u8),
            0x80u8 | #[verifier::truncate] (((u >> 6) & 0x3F) as u8),
            0x80u8 | #[verifier::truncate] ((u & 0x3F) as u8),
        ]
    } else {
        vec![
            0xF0u8 | #[verifier::truncate] (((u >> 18) & 0x7) as u8),
            0x80u8 | #[verifier::truncate] (((u >> 12) & 0x3F) as u8),
            0x80u8 | #[verifier::truncate] (((u >> 6) & 0x3F) as u8),
            0x80u8 | #[verifier::truncate] ((u & 0x3F) as u8),
        ]
    }
}

impl Key {
    /// Parse one token from the human spec.
    ///
    /// Names are case-insensitive (`Enter`/`enter`); `C-x` / `c-x` is Ctrl+x;
    /// any single character is itself. Anything else is an error rather than a
    /// silent no-op.
    pub fn parse(token: &str) -> (r: Result<Key, String>)
        ensures
            r is Ok <==> parse_key(token@) is Some,
            r matches Ok(k) ==> parse_key(token@) == Some(k),
    {
        let v = chars_of(token);
        assert(v@.subrange(0, v@.len() as int) =~= v@);
        parse_key_range(&v, 0, v.len())
    }

    /// Encode as the raw bytes a terminal sends for this key: named keys become
    /// their control/escape sequences; a char becomes its UTF-8 bytes.
    pub fn to_bytes(&self) -> (r: Vec<u8>)
        ensures
            r@ == key_bytes(*self),
    {
        match self {
            Key::Char(c) => utf8_bytes(*c),
            Key::Enter => vec![0x0du8],
            Key::Tab => vec![0x09u8],
            Key::Backspace => vec![0x7fu8],
            Key::Esc => vec![0x1bu8],
            Key::Up => vec![0x1bu8, 0x5bu8, 0x41u8],
            Key::Down => vec![0x1bu8, 0x5bu8, 0x42u8],
            Key::Right => vec![0x1bu8, 0x5bu8, 0x43u8],
            Key::Left => vec![0x1bu8, 0x5bu8, 0x44u8],
            // Ctrl+letter is the letter with the top three bits cleared.
            Key::Ctrl(c) => {
                let up = to_upper(*c) as u32;
                vec![#[verifier::truncate] (up as u8) & 0x1fu8]
            },
        }
    }

    /// Translate to the `tmux send-keys` representation.
    pub fn to_tmux(&self) -> (r: TmuxKey)
        ensures
            tmux_of(*self, r),
    {
        let mut name = String::new();
        match self {
            Key::Char(c) => {
                return TmuxKey::Literal(*c);
            },
            Key::Enter => push_str(&mut name, "Enter"),
            Key::Tab => push_str(&mut name, "Tab"),
            Key::Backspace => push_str(&mut name, "BSpace"),
            Key::Esc => push_str(&mut name, "Escape"),
            Key::Up => push_str(&mut name, "Up"),
            Key::Down => push_str(&mut name, "Down"),
            Key::Left => push_str(&mut name, "Left"),
            Key::Right => push_str(&mut name, "Right"),
            Key::Ctrl(c) => {
                push_str(&mut name, "C-");
                push_char(&mut name, *c);
            },
        }
        assert(name@ =~= tmux_name(*self));
        TmuxKey::Named(name)
    }

    /// Translate to the `zellij action` representation: printable characters
    /// become a `write-chars` literal; named and control keys become the raw
    /// byte sequence [`Key::to_bytes`] produces.
    pub fn to_zellij(&self) -> (r: ZellijKey)
        ensures
            match *self {
                Key::Char(c) => r == ZellijKey::Chars(c),
                _ => r matches ZellijKey::Bytes(b) && b@ == key_bytes(*self),
            },
    {
        match self {
            Key::Char(c) => ZellijKey::Chars(*c),
            other => ZellijKey::Bytes(other.to_bytes()),
        }
    }
}

/// Parse a whitespace- or comma-separated spec into a sequence of keys, e.g.
/// `"2 Down Down Enter"` or `"C-c"`.
pub fn parse_keys(spec: &str) -> (r: Result<Vec<Key>, String>)
    ensures
        r is Ok <==> parse_keys_spec(spec@) is Some,
        r matches Ok(ks) ==> parse_keys_spec(spec@) == Some(ks@),
{
    let v = chars_of(spec);
    parse_keys_chars(&v)
}

/// [`parse_keys`] over characters.
pub fn parse_keys_chars(v: &[char]) -> (r: Result<Vec<Key>, String>)
    ensures
        r is Ok <==> parse_keys_spec(v@) is Some,
        r matches Ok(ks) ==> parse_keys_spec(v@) == Some(ks@),
{
    let toks = tokenize(v, Sep::KeyDelims);
    let ghost ts = tokens(v@, Sep::KeyDelims);
    let mut keys: Vec<Key> = Vec::new();
    let mut i: usize = 0;
    while i < toks.len()
        invariant
            ts == tokens(v@, Sep::KeyDelims),
            ts == views(toks@),
            ts.len() == toks@.len(),
            i <= toks@.len(),
            keys@.len() == i,
            forall|k: int| 0 <= k < i ==> parse_key(ts[k]) == Some(#[trigger] keys@[k]),
        decreases toks@.len() - i,
    {
        let t = &toks[i];
        assert(t@.subrange(0, t@.len() as int) =~= t@);
        assert(ts[i as int] == t@);
        match parse_key_range(t, 0, t.len()) {
            Ok(k) => keys.push(k),
            Err(e) => {
                assert(parse_key(ts[i as int]) is None);
                return Err(e);
            },
        }
        i = i + 1;
    }
    assert forall|k: int| 0 <= k < ts.len() implies (#[trigger] parse_key(ts[k])) is Some by {
        assert(parse_key(ts[k]) == Some(keys@[k]));
    }
    assert(keys@ =~= Seq::new(ts.len(), |k: int| parse_key(ts[k])->0));
    Ok(keys)
}

} // verus!
