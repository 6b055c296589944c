//! A line-oriented script of driving steps.
//!
//! Grammar (one step per line; blank lines and `#` comments are skipped):
//!
//! | line                                   | step                              |
//! |----------------------------------------|-----------------------------------|
//! | `press 2 Down Enter`                   | send those keys                   |
//! | `type hello world`                     | type the literal rest of the line |
//! | `type --from-env VAULT_PASS`           | type a secret from an env var     |
//! | `type --paste --from-env VAULT_PASS`   | same, via the paste transport     |
//! | `wait-until count=1 --timeout-ms 2000` | poll the seam until it holds      |
//! | `assert focus=fleet`                   | check the seam once               |
//! | `capture`                              | emit the pane's visible text      |
//! | `sleep 200ms`                          | pause (`200ms`, `1s`, or bare ms) |
use crate::condition::{parse_cond, CondV, Condition};
use crate::key::{eq_str, parse_keys_chars, parse_keys_spec, Key};
use crate::text::{
    chars_of, dec, is_whitespace, is_ws, lines, parse_unsigned, push_chars, push_dec, push_str,
    split_lines, string_of, tokenize, tokens, trim, trim_range, trim_start, unsigned_value,
    views, Sep,
};
use vstd::prelude::*;

verus! {

/// Default `wait-until` timeout, in milliseconds.
pub const DEFAULT_TIMEOUT_MS: u64 = 5000u64;

/// Default `wait-until` polling interval, in milliseconds.
pub const DEFAULT_INTERVAL_MS: u64 = 50u64;

/// Where a `type` step gets its text.
#[derive(Debug, Clone, PartialEq, Eq)]
pub enum TypeSource {
    /// A literal string from the script line.
    Literal(String),
    /// The value of an environment variable, resolved at run time so the secret
    /// is never baked into the parsed script.
    FromEnv(String),
}

/// One parsed step of a script.
#[derive(Debug, Clone, PartialEq, Eq)]
pub enum Step {
    /// Send a sequence of key presses.
    Press(Vec<Key>),
    /// Type text into the pane, optionally via the paste transport.
    Type {
        /// Where the text to type comes from.
        source: TypeSource,
        /// Route through the backend's paste transport instead of keystrokes.
        paste: bool,
    },
    /// Poll the seam until a condition holds or the timeout elapses.
    WaitUntil {
        /// The condition to wait for.
        cond: Condition,
        /// How long to keep polling before giving up, in milliseconds.
        timeout_ms: u64,
        /// How long to sleep between seam reads, in milliseconds.
        interval_ms: u64,
    },
    /// Check a condition against the seam once.
    Assert(Condition),
    /// Emit the pane's currently visible text.
    Capture,
    /// Pause for the given number of milliseconds.
    Sleep(u128),
}

/// The mathematical form of a [`TypeSource`].
pub enum SourceV {
    /// Literal text.
    Literal(Seq<char>),
    /// An environment variable's name.
    FromEnv(Seq<char>),
}

/// The mathematical form of a [`Step`].
pub enum StepV {
    /// Press keys.
    Press(Seq<Key>),
    /// Type text.
    Type { source: SourceV, paste: bool },
    /// Wait for a condition.
    WaitUntil { cond: CondV, timeout: nat, interval: nat },
    /// Check a condition.
    Assert(CondV),
    /// Capture the screen.
    Capture,
    /// Pause, in milliseconds.
    Sleep(nat),
}

impl View for TypeSource {
    type V = SourceV;

    open spec fn view(&self) -> SourceV {
        match self {
            TypeSource::Literal(s) => SourceV::Literal(s@),
            TypeSource::FromEnv(v) => SourceV::FromEnv(v@),
        }
    }
}

impl View for Step {
    type V = StepV;

    open spec fn view(&self) -> StepV {
        match self {
            Step::Press(ks) => StepV::Press(ks@),
            Step::Type { source, paste } => StepV::Type { source: source@, paste: *paste },
            Step::WaitUntil { cond, timeout_ms, interval_ms } => StepV::WaitUntil {
                cond: cond@,
                timeout: *timeout_ms as nat,
                interval: *interval_ms as nat,
            },
            Step::Assert(c) => StepV::Assert(c@),
            Step::Capture => StepV::Capture,
            Step::Sleep(ms) => StepV::Sleep(*ms as nat),
        }
    }
}

/// The views of a sequence of steps.
pub open spec fn step_views(s: Seq<Step>) -> Seq<StepV> {
    s.map_values(|st: Step| st@)
}

/// What one script line is.
pub enum LineV {
    /// Blank or a `#` comment.
    Blank,
    /// A step.
    Step(StepV),
    /// Not a valid line.
    Bad,
}

/// The index of the first whitespace character at or after `i`.
pub open spec fn find_ws_from(s: Seq<char>, i: int) -> Option<int>
    decreases s.len() - i,
{
    if i < 0 || i >= s.len() {
        None
    } else if is_ws(s[i]) {
        Some(i)
    } else {
        find_ws_from(s, i + 1)
    }
}

/// The words of `s` joined by single spaces.
pub open spec fn join_words(ws: Seq<Seq<char>>) -> Seq<char>
    decreases ws.len(),
{
    if ws.len() == 0 {
        seq![]
    } else if ws.len() == 1 {
        ws[0]
    } else {
        join_words(ws.drop_last()) + " "@ + ws.last()
    }
}

/// The flags that open a flagged `type` operand: any run of `--paste` and
/// `--from-env VAR`, returning paste, the variable, and the words after them;
/// `None` when `--from-env` has no variable.
pub open spec fn type_flags(ws: Seq<Seq<char>>, paste: bool, var: Option<Seq<char>>) -> Option<
    (bool, Option<Seq<char>>, Seq<Seq<char>>),
>
    decreases ws.len(),
{
    if ws.len() == 0 {
        Some((paste, var, ws))
    } else if ws[0] == "--paste"@ {
        type_flags(ws.drop_first(), true, var)
    } else if ws[0] == "--from-env"@ {
        if ws.len() < 2 {
            None
        } else {
            type_flags(ws.skip(2), paste, Some(ws[1]))
        }
    } else {
        Some((paste, var, ws))
    }
}

/// A `type` operand: `<literal...>` verbatim, or flags `--paste` /
/// `--from-env VAR` followed by literal words (joined by single spaces).
pub open spec fn parse_type_spec(rest: Seq<char>) -> LineV {
    let ws = tokens(trim_start(rest), Sep::Whitespace);
    let first = if ws.len() > 0 {
        ws[0]
    } else {
        Seq::empty()
    };
    if first != "--paste"@ && first != "--from-env"@ {
        LineV::Step(StepV::Type { source: SourceV::Literal(rest), paste: false })
    } else {
        match type_flags(ws, false, None) {
            None => LineV::Bad,
            Some((paste, var, words)) => match var {
                Some(v) => if words.len() > 0 {
                    LineV::Bad
                } else {
                    LineV::Step(StepV::Type { source: SourceV::FromEnv(v), paste })
                },
                None => if words.len() == 0 {
                    LineV::Bad
                } else {
                    LineV::Step(
                        StepV::Type { source: SourceV::Literal(join_words(words)), paste },
                    )
                },
            },
        }
    }
}

/// A millisecond value as `u64::from_str` reads it.
pub open spec fn ms_value(w: Seq<char>) -> Option<nat> {
    match unsigned_value(w) {
        Some(n) => if n <= u64::MAX {
            Some(n)
        } else {
            None
        },
        None => None,
    }
}

/// The `--timeout-ms N` / `--interval-ms N` flags of a `wait-until`, applied
/// in order to `(timeout, interval)`; `None` on an unknown flag, a missing
/// value, or a value that is not a number.
pub open spec fn wait_flags(ws: Seq<Seq<char>>, timeout: nat, interval: nat) -> Option<(nat, nat)>
    decreases ws.len(),
{
    if ws.len() == 0 {
        Some((timeout, interval))
    } else if ws[0] == "--timeout-ms"@ || ws[0] == "--interval-ms"@ {
        if ws.len() < 2 {
            None
        } else {
            match ms_value(ws[1]) {
                None => None,
                Some(n) => if ws[0] == "--timeout-ms"@ {
                    wait_flags(ws.skip(2), n, interval)
                } else {
                    wait_flags(ws.skip(2), timeout, n)
                },
            }
        }
    } else {
        None
    }
}

/// A `wait-until` operand: a condition then its flags.
pub open spec fn parse_wait_spec(rest: Seq<char>) -> LineV {
    let ws = tokens(rest, Sep::Whitespace);
    if ws.len() == 0 {
        LineV::Bad
    } else {
        match parse_cond(ws[0]) {
            None => LineV::Bad,
            Some(c) => match wait_flags(
                ws.drop_first(),
                DEFAULT_TIMEOUT_MS as nat,
                DEFAULT_INTERVAL_MS as nat,
            ) {
                None => LineV::Bad,
                Some((t, i)) => LineV::Step(StepV::WaitUntil { cond: c, timeout: t, interval: i }),
            },
        }
    }
}

/// A duration: `200ms`, `1s`, or a bare millisecond count, in milliseconds.
pub open spec fn duration_ms(raw: Seq<char>) -> Option<nat> {
    let r = trim(raw);
    if r.len() >= 2 && r.skip(r.len() - 2) == "ms"@ {
        ms_value(trim(r.take(r.len() - 2)))
    } else if r.len() >= 1 && r.last() == 's' {
        match ms_value(trim(r.drop_last())) {
            Some(n) => Some(n * 1000),
            None => None,
        }
    } else {
        ms_value(r)
    }
}

/// What a script line denotes.
pub open spec fn parse_line(line: Seq<char>) -> LineV {
    let content = trim_start(line);
    if content.len() == 0 || content[0] == '#' {
        LineV::Blank
    } else {
        let (verb, rest) = match find_ws_from(content, 0) {
            Some(i) => (content.take(i), content.skip(i + 1)),
            None => (content, Seq::empty()),
        };
        if verb == "press"@ {
            match parse_keys_spec(rest) {
                Some(ks) => if ks.len() > 0 {
                    LineV::Step(StepV::Press(ks))
                } else {
                    LineV::Bad
                },
                None => LineV::Bad,
            }
        } else if verb == "type"@ {
            parse_type_spec(rest)
        } else if verb == "capture"@ {
            LineV::Step(StepV::Capture)
        } else if verb == "sleep"@ {
            match duration_ms(rest) {
                Some(n) => LineV::Step(StepV::Sleep(n)),
                None => LineV::Bad,
            }
        } else if verb == "wait-until"@ {
            parse_wait_spec(rest)
        } else if verb == "assert"@ {
            let ws = tokens(rest, Sep::Whitespace);
            if ws.len() == 0 {
                LineV::Bad
            } else {
                match parse_cond(ws[0]) {
                    Some(c) => LineV::Step(StepV::Assert(c)),
                    None => LineV::Bad,
                }
            }
        } else {
            LineV::Bad
        }
    }
}

/// The steps of the first `n` lines, or `None` if one of them is bad.
pub open spec fn steps_upto(ls: Seq<Seq<char>>, n: int) -> Option<Seq<StepV>>
    decreases n,
{
    if n <= 0 {
        Some(seq![])
    } else {
        match steps_upto(ls, n - 1) {
            None => None,
            Some(acc) => match parse_line(ls[n - 1]) {
                LineV::Bad => None,
                LineV::Blank => Some(acc),
                LineV::Step(st) => Some(acc.push(st)),
            },
        }
    }
}

/// The steps of a script, or `None` if a line is bad.
pub open spec fn script_steps(text: Seq<char>) -> Option<Seq<StepV>> {
    steps_upto(lines(text), lines(text).len() as int)
}

/// Line `k` (0-based) is the first bad line of the script.
pub open spec fn first_bad_line(text: Seq<char>, k: int) -> bool {
    let ls = lines(text);
    &&& 0 <= k < ls.len()
    &&& parse_line(ls[k]) is Bad
    &&& forall|j: int| 0 <= j < k ==> !(parse_line(ls[j]) is Bad)
}


// ---------------------------------------------------------------------------
// Exec parsing
// ---------------------------------------------------------------------------

fn message(text: &str) -> (r: String)
    ensures
        r@ == text@,
{
    let mut m = String::new();
    push_str(&mut m, text);
    assert(m@ =~= text@);
    m
}

fn message_quoting(before: &str, word: &[char], after: &str) -> (r: String)
    ensures
        r@ == before@ + seq!['"'] + word@ + seq!['"'] + after@,
{
    proof {
        reveal_strlit("\"");
    }
    let mut m = String::new();
    push_str(&mut m, before);
    push_str(&mut m, "\"");
    push_chars(&mut m, word, 0, word.len());
    push_str(&mut m, "\"");
    push_str(&mut m, after);
    assert(word@.subrange(0, word@.len() as int) =~= word@);
    assert(m@ =~= before@ + seq!['"'] + word@ + seq!['"'] + after@);
    m
}

/// The index (in `s`) of the first whitespace character at or after `from`.
fn find_ws(s: &[char], from: usize) -> (r: Option<usize>)
    requires
        from <= s@.len(),
    ensures
        r matches Some(i) ==> from <= i < s@.len() && find_ws_from(s@.skip(from as int), 0) == Some(i - from),
        r is None ==> find_ws_from(s@.skip(from as int), 0) is None,
{
    let ghost t = s@.skip(from as int);
    let mut k = from;
    while k < s.len()
        invariant
            from <= k <= s@.len(),
            t == s@.skip(from as int),
            find_ws_from(t, 0) == find_ws_from(t, k - from),
        decreases s@.len() - k,
    {
        if is_whitespace(s[k]) {
            return Some(k);
        }
        k = k + 1;
    }
    None
}

/// `ws[from..]` joined by single spaces.
fn join_from(ws: &Vec<Vec<char>>, from: usize) -> (r: String)
    requires
        from <= ws@.len(),
    ensures
        r@ == join_words(views(ws@).skip(from as int)),
{
    let ghost vs = views(ws@);
    let mut out = String::new();
    let mut i = from;
    assert(vs.subrange(from as int, from as int) =~= Seq::<Seq<char>>::empty());
    while i < ws.len()
        invariant
            from <= i <= ws@.len(),
            vs == views(ws@),
            out@ == join_words(vs.subrange(from as int, i as int)),
        decreases ws@.len() - i,
    {
        let ghost sub = vs.subrange(from as int, i + 1);
        assert(sub.drop_last() =~= vs.subrange(from as int, i as int));
        assert(sub.last() == ws@[i as int]@);
        if i > from {
            push_str(&mut out, " ");
        } else {
            assert(sub.len() == 1);
        }
        let w = &ws[i];
        push_chars(&mut out, w, 0, w.len());
        assert(w@.subrange(0, w@.len() as int) =~= w@);
        assert(out@ =~= join_words(sub));
        i = i + 1;
    }
    assert(vs.subrange(from as int, ws@.len() as int) =~= vs.skip(from as int));
    out
}

/// Parse the operand of a `type` step.
#[verifier::loop_isolation(false)]
fn parse_type_chars(rest: &[char]) -> (r: Result<Step, String>)
    ensures
        match parse_type_spec(rest@) {
            LineV::Step(sv) => r matches Ok(st) && st@ == sv,
            _ => r is Err,
        },
{
    let start = crate::text::skip_ws(rest, 0);
    assert(rest@.skip(0) =~= rest@);
    let trimmed = &rest[start..rest.len()];
    assert(trimmed@ =~= trim_start(rest@));
    let ws = tokenize(trimmed, Sep::Whitespace);
    let ghost wv = views(ws@);
    let mut flagged = false;
    if ws.len() > 0 {
        let p1 = eq_str(&ws[0], "--paste");
        let p2 = eq_str(&ws[0], "--from-env");
        assert(p1 == (ws@[0]@ == "--paste"@));
        flagged = p1 || p2;
    }
    if !flagged {
        proof {
            reveal_strlit("--paste");
            reveal_strlit("--from-env");
            if ws@.len() > 0 {
                assert(wv[0] == ws@[0]@);
            }
        }
        assert(rest@.subrange(0, rest@.len() as int) =~= rest@);
        let lit = string_of(rest, 0, rest.len());
        assert(wv == tokens(trim_start(rest@), Sep::Whitespace));
        let ghost first = if wv.len() > 0 { wv[0] } else { Seq::<char>::empty() };
        assert("--paste"@.len() == 7);
        assert(ws@.len() == 0 ==> first.len() == 0);
        assert(ws@.len() > 0 ==> ws@[0]@ != "--paste"@);
        assert(first != "--paste"@);
        assert(first != "--from-env"@);
        assert(parse_type_spec(rest@) == LineV::Step(StepV::Type { source: SourceV::Literal(rest@), paste: false }));
        return Ok(Step::Type { source: TypeSource::Literal(lit), paste: false });
    }
    assert(wv[0] == ws@[0]@);
    let mut paste = false;
    let mut var: Option<String> = None;
    let mut j: usize = 0;
    assert(wv.skip(0) =~= wv);
    while j < ws.len()
        invariant
            wv == views(ws@),
            j <= ws@.len(),
            type_flags(wv, false, None) == type_flags(
                wv.skip(j as int),
                paste,
                match var {
                    Some(v) => Some(v@),
                    None => None,
                },
            ),
        decreases ws@.len() - j,
    {
        assert(wv.skip(j as int)[0] == ws@[j as int]@);
        if eq_str(&ws[j], "--paste") {
            assert(wv.skip(j as int).drop_first() =~= wv.skip(j + 1));
            paste = true;
            j = j + 1;
        } else if eq_str(&ws[j], "--from-env") {
            if j + 1 >= ws.len() {
                return Err(message("type --from-env needs a variable name"));
            }
            assert(wv.skip(j as int).skip(2) =~= wv.skip(j + 2));
            assert(wv.skip(j as int)[1] == ws@[j + 1]@);
            let v = &ws[j + 1];
            var = Some(string_of(v, 0, v.len()));
            assert(v@.subrange(0, v@.len() as int) =~= v@);
            j = j + 2;
        } else {
            break;
        }
    }
    let ghost words = wv.skip(j as int);
    match var {
        Some(v) => {
            if j < ws.len() {
                return Err(message("type --from-env takes no literal text"));
            }
            Ok(Step::Type { source: TypeSource::FromEnv(v), paste })
        },
        None => {
            if j >= ws.len() {
                return Err(message("type --paste needs literal text or --from-env VAR"));
            }
            Ok(Step::Type { source: TypeSource::Literal(join_from(&ws, j)), paste })
        },
    }
}

/// Parse a millisecond count.
fn parse_ms(w: &[char]) -> (r: Result<u64, String>)
    ensures
        match ms_value(w@) {
            Some(n) => r matches Ok(m) && m as nat == n,
            None => r is Err,
        },
{
    match parse_unsigned(w, u64::MAX) {
        Some(n) => Ok(n),
        None => Err(message_quoting("expected a number, got ", w, "")),
    }
}

/// Parse the operand of a `wait-until` step.
#[verifier::loop_isolation(false)]
fn parse_wait_chars(rest: &[char]) -> (r: Result<Step, String>)
    ensures
        match parse_wait_spec(rest@) {
            LineV::Step(sv) => r matches Ok(st) && st@ == sv,
            _ => r is Err,
        },
{
    let ws = tokenize(rest, Sep::Whitespace);
    let ghost wv = views(ws@);
    if ws.len() == 0 {
        return Err(message("wait-until needs a condition"));
    }
    assert(wv[0] == ws@[0]@);
    let c0 = &ws[0];
    assert(c0@.subrange(0, c0@.len() as int) =~= c0@);
    let cond = match crate::condition::parse_cond_chars(c0) {
        Ok(c) => c,
        Err(e) => {
            return Err(e);
        },
    };
    let mut timeout: u64 = DEFAULT_TIMEOUT_MS;
    let mut interval: u64 = DEFAULT_INTERVAL_MS;
    let mut j: usize = 1;
    assert(wv.skip(1) =~= wv.drop_first());
    while j < ws.len()
        invariant
            wv == views(ws@),
            1 <= j <= ws@.len(),
            wait_flags(wv.drop_first(), DEFAULT_TIMEOUT_MS as nat, DEFAULT_INTERVAL_MS as nat)
                == wait_flags(wv.skip(j as int), timeout as nat, interval as nat),
        decreases ws@.len() - j,
    {
        assert(wv.skip(j as int)[0] == ws@[j as int]@);
        let is_t = eq_str(&ws[j], "--timeout-ms");
        let is_i = eq_str(&ws[j], "--interval-ms");
        if !is_t && !is_i {
            let f = &ws[j];
            return Err(message_quoting("unexpected token ", f, " in wait-until"));
        }
        if j + 1 >= ws.len() {
            return Err(message("a wait-until flag needs a value"));
        }
        assert(wv.skip(j as int)[1] == ws@[j + 1]@);
        assert(wv.skip(j as int).skip(2) =~= wv.skip(j + 2));
        let n = match parse_ms(&ws[j + 1]) {
            Ok(n) => n,
            Err(e) => {
                return Err(e);
            },
        };
        if is_t {
            timeout = n;
        } else {
            interval = n;
        }
        j = j + 2;
    }
    Ok(Step::WaitUntil { cond, timeout_ms: timeout, interval_ms: interval })
}

/// Parse a duration operand into milliseconds.
fn parse_duration_chars(raw: &[char]) -> (r: Result<u128, String>)
    ensures
        match duration_ms(raw@) {
            Some(n) => r matches Ok(m) && m as nat == n,
            None => r is Err,
        },
{
    let (a, b) = trim_range(raw, 0, raw.len());
    assert(raw@.subrange(0, raw@.len() as int) =~= raw@);
    let r = &raw[a..b];
    let ghost rv = trim(raw@);
    assert(r@ == rv);
    proof {
        reveal_strlit("ms");
        assert("ms"@ =~= seq!['m', 's']);
    }
    if r.len() >= 2 && r[r.len() - 2] == 'm' && r[r.len() - 1] == 's' {
        assert(rv.skip(rv.len() - 2) =~= seq!['m', 's']);
        let (c, d) = trim_range(r, 0, r.len() - 2);
        assert(rv.take(rv.len() - 2) =~= r@.subrange(0, r@.len() - 2));
        let n = parse_ms(&r[c..d])?;
        return Ok(n as u128);
    }
    if r.len() >= 2 {
        assert(r@[r@.len() - 2] != 'm' || r@[r@.len() - 1] != 's' ==> rv.skip(rv.len() - 2) != "ms"@);
    }
    if r.len() >= 1 && r[r.len() - 1] == 's' {
        let (c, d) = trim_range(r, 0, r.len() - 1);
        assert(rv.drop_last() =~= r@.subrange(0, r@.len() - 1));
        let n = parse_ms(&r[c..d])?;
        return Ok(n as u128 * 1000);
    }
    let n = parse_ms(r)?;
    Ok(n as u128)
}

/// Parse one script line held in `line`.
pub fn parse_line_chars(line: &[char]) -> (r: Result<Option<Step>, String>)
    ensures
        match parse_line(line@) {
            LineV::Blank => r matches Ok(None),
            LineV::Step(sv) => r matches Ok(Some(st)) && st@ == sv,
            LineV::Bad => r is Err,
        },
{
    let c0 = crate::text::skip_ws(line, 0);
    assert(line@.skip(0) =~= line@);
    let content = &line[c0..line.len()];
    assert(content@ =~= trim_start(line@));
    if content.len() == 0 || content[0] == '#' {
        return Ok(None);
    }
    let (vend, rstart) = match find_ws(content, 0) {
        Some(i) => (i, i + 1),
        None => (content.len(), content.len()),
    };
    assert(content@.skip(0) =~= content@);
    let verb = &content[0..vend];
    let rest = &content[rstart..content.len()];
    proof {
        match find_ws_from(content@, 0) {
            Some(i) => {
                assert(verb@ =~= content@.take(i));
                assert(rest@ =~= content@.skip(i + 1));
            },
            None => {
                assert(verb@ =~= content@);
                assert(rest@ =~= Seq::<char>::empty());
            },
        }
    }
    if eq_str(verb, "press") {
        let keys = parse_keys_chars(rest)?;
        if keys.len() == 0 {
            return Err(message("press needs at least one key"));
        }
        Ok(Some(Step::Press(keys)))
    } else if eq_str(verb, "type") {
        Ok(Some(parse_type_chars(rest)?))
    } else if eq_str(verb, "capture") {
        Ok(Some(Step::Capture))
    } else if eq_str(verb, "sleep") {
        Ok(Some(Step::Sleep(parse_duration_chars(rest)?)))
    } else if eq_str(verb, "wait-until") {
        Ok(Some(parse_wait_chars(rest)?))
    } else if eq_str(verb, "assert") {
        let ws = tokenize(rest, Sep::Whitespace);
        if ws.len() == 0 {
            return Err(message("expected a condition"));
        }
        assert(views(ws@)[0] == ws@[0]@);
        let c = crate::condition::parse_cond_chars(&ws[0])?;
        Ok(Some(Step::Assert(c)))
    } else {
        Err(message_quoting("unknown step ", verb, ""))
    }
}

impl Step {
    /// Parse one script line. Blank lines and `#` comments return `None`.
    pub fn parse(line: &str) -> (r: Result<Option<Step>, String>)
        ensures
            match parse_line(line@) {
                LineV::Blank => r matches Ok(None),
                LineV::Step(sv) => r matches Ok(Some(st)) && st@ == sv,
                LineV::Bad => r is Err,
            },
    {
        let v = chars_of(line);
        parse_line_chars(&v)
    }
}

/// Parse a whole script into its steps, reporting the 1-based line number of
/// the first bad line (`line 4: ...`).
pub fn parse_script(text: &str) -> (r: Result<Vec<Step>, String>)
    ensures
        match script_steps(text@) {
            Some(ss) => r matches Ok(steps) && step_views(steps@) == ss,
            None => r is Err,
        },
        r matches Err(e) ==> exists|k: int|
            first_bad_line(text@, k) && e@.take(("line "@ + dec((k + 1) as nat) + ": "@).len() as int)
                == "line "@ + dec((k + 1) as nat) + ": "@,
{
    let v = chars_of(text);
    let ls = split_lines(&v);
    let ghost lv = views(ls@);
    assert(lv == lines(text@));
    let mut steps: Vec<Step> = Vec::new();
    let mut i: usize = 0;
    while i < ls.len()
        invariant
            lv == views(ls@),
            lv == lines(text@),
            i <= ls@.len(),
            steps_upto(lv, i as int) == Some(step_views(steps@)),
            forall|j: int| 0 <= j < i ==> !(parse_line(#[trigger] lv[j]) is Bad),
        decreases ls@.len() - i,
    {
        assert(lv[i as int] == ls@[i as int]@);
        match parse_line_chars(&ls[i]) {
            Ok(Some(st)) => {
                let ghost before = steps@;
                steps.push(st);
                assert(step_views(steps@) =~= step_views(before).push(st@));
            },
            Ok(None) => {},
            Err(e) => {
                let mut m = String::new();
                push_str(&mut m, "line ");
                push_dec(&mut m, (i as u128) + 1);
                push_str(&mut m, ": ");
                let ghost head = m@;
                push_str(&mut m, e.as_str());
                proof {
                    reveal_strlit("line ");
                    reveal_strlit(": ");
                    assert(head =~= "line "@ + dec((i + 1) as nat) + ": "@);
                    assert(m@.take(head.len() as int) =~= head);
                    assert(first_bad_line(text@, i as int));
                    lemma_steps_bad(lv, i as int, lv.len() as int);
                }
                return Err(m);
            },
        }
        i = i + 1;
    }
    Ok(steps)
}

/// Once a line is bad, every longer prefix has no steps.
proof fn lemma_steps_bad(ls: Seq<Seq<char>>, k: int, n: int)
    requires
        0 <= k < n <= ls.len(),
        parse_line(ls[k]) is Bad,
    ensures
        steps_upto(ls, n) is None,
    decreases n,
{
    if n - 1 > k {
        lemma_steps_bad(ls, k, n - 1);
    }
}

} // verus!
