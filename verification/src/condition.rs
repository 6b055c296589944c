//! Conditions evaluated against the UI's JSON state seam.
//!
//! A condition is a tiny expression over a dot-path into the state JSON:
//!
//! | spec              | true when                                        |
//! |-------------------|--------------------------------------------------|
//! | `focus` / `focus?`| the path exists                                  |
//! | `focus=fleet`     | the scalar at the path equals `fleet`            |
//! | `bag.count!=0`    | the path exists and its scalar differs           |
//! | `line~=Ready`     | the scalar contains the substring                |
//! | `count>2`         | numeric compare (`>`, `<`, `>=`, `<=`)           |
//! | `rows.2=x`        | array indices are path segments                  |
//!
//! Scalars (string/bool/number/null) compare by their textual form, except
//! that two numeric texts compare by value (`2` matches `2.0`, `1e3` matches
//! `1000`); objects and arrays are not scalar and never equal a bare value.
use crate::json::{scalar_at, scalar_text, value_at, Json, JsonV};
use crate::number::{compare_nums, num_of, num_order, parse_num};
use crate::text::{
    chars_of, contains, find, find_str, push_chars, push_str, string_of, trim, trim_range,
};
use vstd::prelude::*;

verus! {

/// A numeric comparison operator.
#[derive(Debug, Clone, Copy, PartialEq, Eq, Structural)]
pub enum NumOp {
    /// `>`
    Gt,
    /// `<`
    Lt,
    /// `>=`
    Ge,
    /// `<=`
    Le,
}

/// A parsed condition over the state JSON.
#[derive(Debug, Clone, PartialEq, Eq)]
pub enum Condition {
    /// The dot-path resolves to any value.
    Exists(String),
    /// The scalar at the dot-path equals the given text.
    Equals(String, String),
    /// The dot-path resolves to a scalar that differs from the given text.
    NotEquals(String, String),
    /// The scalar at the dot-path contains the given text.
    Contains(String, String),
    /// The scalar at the dot-path is a number ordered against the given one.
    Compare(String, NumOp, String),
}

/// What a condition's path resolved to.
#[derive(Debug, Clone, PartialEq, Eq)]
pub enum Observed {
    /// The path is absent.
    Missing,
    /// A scalar, in its textual form.
    Scalar(String),
    /// An object or array.
    NonScalar,
}

/// The mathematical form of a [`Condition`].
pub enum CondV {
    /// The path exists.
    Exists(Seq<char>),
    /// Scalar equality.
    Equals(Seq<char>, Seq<char>),
    /// Scalar inequality.
    NotEquals(Seq<char>, Seq<char>),
    /// Substring.
    Contains(Seq<char>, Seq<char>),
    /// Numeric order.
    Compare(Seq<char>, NumOp, Seq<char>),
}

/// The mathematical form of an [`Observed`].
pub enum ObservedV {
    /// Absent.
    Missing,
    /// A scalar's text.
    Scalar(Seq<char>),
    /// An object or array.
    NonScalar,
}

impl View for Condition {
    type V = CondV;

    open spec fn view(&self) -> CondV {
        match self {
            Condition::Exists(p) => CondV::Exists(p@),
            Condition::Equals(p, w) => CondV::Equals(p@, w@),
            Condition::NotEquals(p, w) => CondV::NotEquals(p@, w@),
            Condition::Contains(p, w) => CondV::Contains(p@, w@),
            Condition::Compare(p, o, w) => CondV::Compare(p@, *o, w@),
        }
    }
}

impl View for Observed {
    type V = ObservedV;

    open spec fn view(&self) -> ObservedV {
        match self {
            Observed::Missing => ObservedV::Missing,
            Observed::Scalar(s) => ObservedV::Scalar(s@),
            Observed::NonScalar => ObservedV::NonScalar,
        }
    }
}

/// A path without surrounding whitespace and without one leading `.`.
pub open spec fn clean_path(p: Seq<char>) -> Seq<char> {
    let t = trim(p);
    if t.len() > 0 && t[0] == '.' {
        t.drop_first()
    } else {
        t
    }
}

/// `c` is one of `=`, `>`, `<`.
pub open spec fn is_rel(c: char) -> bool {
    c == '=' || c == '>' || c == '<'
}

/// The first index at or after `i` holding `=`, `>` or `<`.
pub open spec fn find_rel_from(s: Seq<char>, i: int) -> Option<int>
    decreases s.len() - i,
{
    if i < 0 || i >= s.len() {
        None
    } else if is_rel(s[i]) {
        Some(i)
    } else {
        find_rel_from(s, i + 1)
    }
}

/// The condition a spec denotes. `!=` binds first, then `~=`, then the first
/// of `=`, `>=`, `<=`, `>`, `<`; a bound of an order must be a number. With no
/// operator (or a trailing `?`) the spec is an existence check, whose path
/// must not be empty.
pub open spec fn parse_cond(spec: Seq<char>) -> Option<CondV> {
    let s = trim(spec);
    match find(s, "!="@) {
        Some(i) => Some(CondV::NotEquals(clean_path(s.take(i)), trim(s.skip(i + 2)))),
        None => match find(s, "~="@) {
            Some(i) => Some(CondV::Contains(clean_path(s.take(i)), trim(s.skip(i + 2)))),
            None => match find_rel_from(s, 0) {
                Some(i) => if s[i] == '=' {
                    Some(CondV::Equals(clean_path(s.take(i)), trim(s.skip(i + 1))))
                } else {
                    let two = i + 1 < s.len() && s[i + 1] == '=';
                    let op = if s[i] == '>' {
                        if two {
                            NumOp::Ge
                        } else {
                            NumOp::Gt
                        }
                    } else if two {
                        NumOp::Le
                    } else {
                        NumOp::Lt
                    };
                    let want = trim(s.skip(if two {
                        i + 2
                    } else {
                        i + 1
                    }));
                    if num_of(want) is Some {
                        Some(CondV::Compare(clean_path(s.take(i)), op, want))
                    } else {
                        None
                    }
                },
                None => {
                    let p = clean_path(
                        if s.len() > 0 && s.last() == '?' {
                            s.drop_last()
                        } else {
                            s
                        },
                    );
                    if p.len() == 0 {
                        None
                    } else {
                        Some(CondV::Exists(p))
                    }
                },
            },
        },
    }
}

/// Two scalar texts are equal: as text, or by value when both read as
/// numbers. Reading numbers only adds matches (`2` equals `2.0`); a text
/// always equals itself, `NaN` included.
pub open spec fn scalar_eq(got: Seq<char>, want: Seq<char>) -> bool {
    got == want || match (num_of(got), num_of(want)) {
        (Some(a), Some(b)) => num_order(a, b) == Some(0int),
        _ => false,
    }
}

/// An order result (-1, 0, 1) satisfies the operator.
pub open spec fn op_holds(op: NumOp, o: int) -> bool {
    match op {
        NumOp::Gt => o > 0,
        NumOp::Lt => o < 0,
        NumOp::Ge => o >= 0,
        NumOp::Le => o <= 0,
    }
}

/// A scalar text stands in the operator's order to the bound.
pub open spec fn num_holds(got: Seq<char>, op: NumOp, want: Seq<char>) -> bool {
    match (num_of(got), num_of(want)) {
        (Some(a), Some(b)) => match num_order(a, b) {
            Some(o) => op_holds(op, o),
            None => false,
        },
        _ => false,
    }
}

/// Whether a condition holds of a state.
pub open spec fn holds(c: CondV, root: JsonV) -> bool {
    match c {
        CondV::Exists(p) => value_at(root, p) is Some,
        CondV::Equals(p, w) => match scalar_at(root, p) {
            Some(g) => scalar_eq(g, w),
            None => false,
        },
        CondV::NotEquals(p, w) => match scalar_at(root, p) {
            Some(g) => !scalar_eq(g, w),
            None => false,
        },
        CondV::Contains(p, w) => match scalar_at(root, p) {
            Some(g) => contains(g, w),
            None => false,
        },
        CondV::Compare(p, op, w) => match scalar_at(root, p) {
            Some(g) => num_holds(g, op, w),
            None => false,
        },
    }
}

/// Scalar equality is symmetric: `count=2` holds of a `2.0` exactly when a
/// `2` would be matched by `count=2.0`.
pub proof fn lemma_scalar_eq_symmetric(a: Seq<char>, b: Seq<char>)
    ensures
        scalar_eq(a, b) == scalar_eq(b, a),
{
    match (num_of(a), num_of(b)) {
        (Some(x), Some(y)) => crate::number::lemma_num_order_flips(x, y),
        _ => {},
    }
}

/// The path a condition addresses.
pub open spec fn cond_path(c: CondV) -> Seq<char> {
    match c {
        CondV::Exists(p) => p,
        CondV::Equals(p, _) => p,
        CondV::NotEquals(p, _) => p,
        CondV::Contains(p, _) => p,
        CondV::Compare(p, _, _) => p,
    }
}

/// The spelling of an order operator.
pub open spec fn op_text(op: NumOp) -> Seq<char> {
    match op {
        NumOp::Gt => ">"@,
        NumOp::Lt => "<"@,
        NumOp::Ge => ">="@,
        NumOp::Le => "<="@,
    }
}

/// The canonical spelling of a condition (`bag.count=2`).
pub open spec fn spec_text(c: CondV) -> Seq<char> {
    match c {
        CondV::Exists(p) => p,
        CondV::Equals(p, w) => p + "="@ + w,
        CondV::NotEquals(p, w) => p + "!="@ + w,
        CondV::Contains(p, w) => p + "~="@ + w,
        CondV::Compare(p, op, w) => p + op_text(op) + w,
    }
}

/// What a path resolves to in a state.
pub open spec fn observe(root: JsonV, path: Seq<char>) -> ObservedV {
    match value_at(root, path) {
        None => ObservedV::Missing,
        Some(v) => match scalar_text(v) {
            Some(t) => ObservedV::Scalar(t),
            None => ObservedV::NonScalar,
        },
    }
}

/// A short explanation of an observation: `count was 1`.
pub open spec fn describe_text(o: ObservedV, path: Seq<char>) -> Seq<char> {
    match o {
        ObservedV::Missing => path + " was missing"@,
        ObservedV::Scalar(s) => path + " was "@ + s,
        ObservedV::NonScalar => path + " was not a scalar"@,
    }
}

fn rel_index(s: &[char], from: usize, to: usize) -> (r: Option<usize>)
    requires
        from <= to <= s@.len(),
    ensures
        r matches Some(i) ==> from <= i < to && find_rel_from(s@.subrange(from as int, to as int), 0) == Some(i - from),
        r is None ==> find_rel_from(s@.subrange(from as int, to as int), 0) is None,
{
    let ghost t = s@.subrange(from as int, to as int);
    let mut i = from;
    while i < to
        invariant
            from <= i <= to <= s@.len(),
            t == s@.subrange(from as int, to as int),
            find_rel_from(t, 0) == find_rel_from(t, i - from),
        decreases to - i,
    {
        if s[i] == '=' || s[i] == '>' || s[i] == '<' {
            return Some(i);
        }
        i = i + 1;
    }
    None
}

/// A string of the cleaned path held in `s[from..to]`.
fn clean_path_of(s: &[char], from: usize, to: usize) -> (r: String)
    requires
        from <= to <= s@.len(),
    ensures
        r@ == clean_path(s@.subrange(from as int, to as int)),
{
    let (a, b) = trim_range(s, from, to);
    if a < b && s[a] == '.' {
        assert(s@.subrange(a as int, b as int).drop_first() =~= s@.subrange(a + 1, b as int));
        string_of(s, a + 1, b)
    } else {
        string_of(s, a, b)
    }
}

/// A string of the trimmed text held in `s[from..to]`.
fn trimmed_of(s: &[char], from: usize, to: usize) -> (r: String)
    requires
        from <= to <= s@.len(),
    ensures
        r@ == trim(s@.subrange(from as int, to as int)),
{
    let (a, b) = trim_range(s, from, to);
    string_of(s, a, b)
}

/// Scalar equality, numeric-aware.
pub fn scalar_equal(got: &[char], want: &[char]) -> (r: bool)
    ensures
        r == scalar_eq(got@, want@),
{
    if crate::json::eq_chars(got, want) {
        return true;
    }
    match (parse_num(got), parse_num(want)) {
        (Some(a), Some(b)) => match compare_nums(&a, &b) {
            Some(o) => o == 0,
            None => false,
        },
        _ => false,
    }
}

fn num_holds_exec(got: &[char], op: NumOp, want: &[char]) -> (r: bool)
    ensures
        r == num_holds(got@, op, want@),
{
    match (parse_num(got), parse_num(want)) {
        (Some(a), Some(b)) => match compare_nums(&a, &b) {
            Some(o) => match op {
                NumOp::Gt => o > 0,
                NumOp::Lt => o < 0,
                NumOp::Ge => o >= 0,
                NumOp::Le => o <= 0,
            },
            None => false,
        },
        _ => false,
    }
}

impl Condition {
    /// Parse a condition spec. `!=` binds before `~=`, and both before the
    /// first of `=`, `>=`, `<=`, `>`, `<`; a trailing `?` (or no operator at
    /// all) means existence.
    pub fn parse(spec: &str) -> (r: Result<Condition, String>)
        ensures
            r is Ok <==> parse_cond(spec@) is Some,
            r matches Ok(c) ==> parse_cond(spec@) == Some(c@),
    {
        let v = chars_of(spec);
        parse_cond_chars(&v)
    }
}

/// [`Condition::parse`] over characters.
pub fn parse_cond_chars(v: &[char]) -> (r: Result<Condition, String>)
    ensures
        r is Ok <==> parse_cond(v@) is Some,
        r matches Ok(c) ==> parse_cond(v@) == Some(c@),
{
        let (a, b) = trim_range(v, 0, v.len());
        assert(v@.subrange(0, v@.len() as int) =~= v@);
        let s = &v[a..b];
        let ghost sv = trim(v@);
        assert(s@ == sv);
        let ne = chars_of("!=");
        let ct = chars_of("~=");
        proof {
            reveal_strlit("!=");
            reveal_strlit("~=");
        }
        if let Some(i) = find_str(s, &ne) {
            assert(s@.take(i as int) =~= s@.subrange(0, i as int));
            assert(s@.skip(i + 2) =~= s@.subrange(i + 2, s@.len() as int));
            return Ok(Condition::NotEquals(clean_path_of(s, 0, i), trimmed_of(s, i + 2, s.len())));
        }
        if let Some(i) = find_str(s, &ct) {
            assert(s@.take(i as int) =~= s@.subrange(0, i as int));
            assert(s@.skip(i + 2) =~= s@.subrange(i + 2, s@.len() as int));
            return Ok(Condition::Contains(clean_path_of(s, 0, i), trimmed_of(s, i + 2, s.len())));
        }
        assert(s@.subrange(0, s@.len() as int) =~= s@);
        match rel_index(s, 0, s.len()) {
            Some(i) => {
                assert(s@.take(i as int) =~= s@.subrange(0, i as int));
                if s[i] == '=' {
                    assert(s@.skip(i + 1) =~= s@.subrange(i + 1, s@.len() as int));
                    return Ok(Condition::Equals(clean_path_of(s, 0, i), trimmed_of(s, i + 1, s.len())));
                }
                let two = i + 1 < s.len() && s[i + 1] == '=';
                let op = if s[i] == '>' {
                    if two { NumOp::Ge } else { NumOp::Gt }
                } else if two {
                    NumOp::Le
                } else {
                    NumOp::Lt
                };
                let w = if two { i + 2 } else { i + 1 };
                assert(s@.skip(w as int) =~= s@.subrange(w as int, s@.len() as int));
                let want = trimmed_of(s, w, s.len());
                let wv = chars_of(want.as_str());
                if parse_num(&wv).is_none() {
                    let mut msg = String::new();
                    push_str(&mut msg, "expected a number after the operator, got ");
                    push_str(&mut msg, want.as_str());
                    return Err(msg);
                }
                Ok(Condition::Compare(clean_path_of(s, 0, i), op, want))
            },
            None => {
                let end = if s.len() > 0 && s[s.len() - 1] == '?' { s.len() - 1 } else { s.len() };
                assert(s.len() > 0 && s[s.len() - 1] == '?' ==> s@.drop_last() =~= s@.subrange(0, end as int));
                let p = clean_path_of(s, 0, end);
                if p.as_str().is_empty() {
                    let mut msg = String::new();
                    push_str(&mut msg, "empty condition");
                    return Err(msg);
                }
                Ok(Condition::Exists(p))
            },
        }
}

impl Condition {
    /// The dot-path this condition addresses.
    pub fn path(&self) -> (r: &str)
        ensures
            r@ == cond_path(self@),
    {
        match self {
            Condition::Exists(p) => p.as_str(),
            Condition::Equals(p, _) => p.as_str(),
            Condition::NotEquals(p, _) => p.as_str(),
            Condition::Contains(p, _) => p.as_str(),
            Condition::Compare(p, _, _) => p.as_str(),
        }
    }

    /// The canonical spelling of this condition, e.g. `bag.count=2`.
    pub fn to_spec(&self) -> (r: String)
        ensures
            r@ == spec_text(self@),
    {
        let mut out = String::new();
        match self {
            Condition::Exists(p) => {
                push_str(&mut out, p.as_str());
            },
            Condition::Equals(p, w) => {
                push_str(&mut out, p.as_str());
                push_str(&mut out, "=");
                push_str(&mut out, w.as_str());
            },
            Condition::NotEquals(p, w) => {
                push_str(&mut out, p.as_str());
                push_str(&mut out, "!=");
                push_str(&mut out, w.as_str());
            },
            Condition::Contains(p, w) => {
                push_str(&mut out, p.as_str());
                push_str(&mut out, "~=");
                push_str(&mut out, w.as_str());
            },
            Condition::Compare(p, op, w) => {
                push_str(&mut out, p.as_str());
                match op {
                    NumOp::Gt => push_str(&mut out, ">"),
                    NumOp::Lt => push_str(&mut out, "<"),
                    NumOp::Ge => push_str(&mut out, ">="),
                    NumOp::Le => push_str(&mut out, "<="),
                }
                push_str(&mut out, w.as_str());
            },
        }
        assert(out@ =~= spec_text(self@));
        out
    }

    /// Evaluate against a state value.
    pub fn eval(&self, root: &Json) -> (r: bool)
        ensures
            r == holds(self@, root@),
    {
        let pv = chars_of(self.path());
        match self {
            Condition::Exists(_) => root.at(&pv).is_some(),
            Condition::Equals(_, w) => match scalar_at_exec(root, &pv) {
                Some(g) => {
                    let wv = chars_of(w.as_str());
                    scalar_equal(&g, &wv)
                },
                None => false,
            },
            // A missing path is *not* an inequality: the value must exist and
            // differ, so `wait-until x!=0` does not pass on absent state.
            Condition::NotEquals(_, w) => match scalar_at_exec(root, &pv) {
                Some(g) => {
                    let wv = chars_of(w.as_str());
                    !scalar_equal(&g, &wv)
                },
                None => false,
            },
            Condition::Contains(_, w) => match scalar_at_exec(root, &pv) {
                Some(g) => {
                    let wv = chars_of(w.as_str());
                    find_str(&g, &wv).is_some()
                },
                None => false,
            },
            Condition::Compare(_, op, w) => match scalar_at_exec(root, &pv) {
                Some(g) => {
                    let wv = chars_of(w.as_str());
                    num_holds_exec(&g, *op, &wv)
                },
                None => false,
            },
        }
    }

    /// What this condition's path resolves to in `root`.
    pub fn observed(&self, root: &Json) -> (r: Observed)
        ensures
            r@ == observe(root@, cond_path(self@)),
    {
        let pv = chars_of(self.path());
        match root.at(&pv) {
            None => Observed::Missing,
            Some(v) => match v.scalar_string() {
                Some(t) => Observed::Scalar(t),
                None => Observed::NonScalar,
            },
        }
    }

    /// A one-line explanation of the condition against `root`:
    /// `count=2 (count was 1)`.
    pub fn explain(&self, root: &Json) -> (r: String)
        ensures
            r@ == spec_text(self@) + " ("@ + describe_text(observe(root@, cond_path(self@)), cond_path(self@)) + ")"@,
    {
        let mut out = self.to_spec();
        push_str(&mut out, " (");
        let d = self.observed(root).describe(self.path());
        push_str(&mut out, d.as_str());
        push_str(&mut out, ")");
        out
    }
}

/// The scalar text at `path`, as characters.
fn scalar_at_exec(root: &Json, path: &[char]) -> (r: Option<Vec<char>>)
    ensures
        match r {
            Some(g) => scalar_at(root@, path@) == Some(g@),
            None => scalar_at(root@, path@) is None,
        },
{
    match root.at(path) {
        Some(v) => match v.scalar_string() {
            Some(t) => Some(chars_of(t.as_str())),
            None => None,
        },
        None => None,
    }
}

impl Observed {
    /// A short explanation naming `path`: `count was 1`, `count was missing`,
    /// `count was not a scalar`.
    pub fn describe(&self, path: &str) -> (r: String)
        ensures
            r@ == describe_text(self@, path@),
    {
        let mut out = String::new();
        push_str(&mut out, path);
        match self {
            Observed::Missing => push_str(&mut out, " was missing"),
            Observed::Scalar(s) => {
                push_str(&mut out, " was ");
                push_str(&mut out, s.as_str());
            },
            Observed::NonScalar => push_str(&mut out, " was not a scalar"),
        }
        assert(out@ =~= describe_text(self@, path@));
        out
    }

    /// The scalar text, if the path held a scalar.
    pub fn scalar(&self) -> (r: Option<&str>)
        ensures
            match self@ {
                ObservedV::Scalar(s) => r matches Some(t) && t@ == s,
                _ => r is None,
            },
    {
        match self {
            Observed::Scalar(s) => Some(s.as_str()),
            _ => None,
        }
    }

    /// The machine-readable form: the scalar as a JSON string, else `null`.
    pub fn to_json(&self) -> (r: Json)
        ensures
            r@ == match self@ {
                ObservedV::Scalar(s) => JsonV::Str(s),
                _ => JsonV::Null,
            },
    {
        match self {
            Observed::Scalar(s) => Json::string(s.as_str()),
            _ => Json::null(),
        }
    }
}

} // verus!
