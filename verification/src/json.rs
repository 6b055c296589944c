//! The state seam's data model: a JSON document, and dot-path lookup into it.
//!
//! A UI reports its state as one JSON document; conditions address it by
//! dot-paths (`bag.count`, `rows.2.status`), where array indices are path
//! segments. Numbers keep the exact text they were written with.
use crate::key::eq_str;
use crate::text::{chars_of, parse_unsigned, push_char, push_str, unsigned_value, views};
use vstd::prelude::*;

verus! {

/// A JSON value.
#[derive(Debug, PartialEq, Eq)]
pub enum Json {
    /// `null`.
    Null,
    /// `true` / `false`.
    Bool(bool),
    /// A number, as its text (`2`, `2.0`, `1e3`).
    Number(String),
    /// A string.
    Str(String),
    /// An array.
    Array(Vec<Json>),
    /// An object: its entries in order.
    Object(Vec<(String, Json)>),
}

/// The mathematical form of a [`Json`] value.
pub enum JsonV {
    /// `null`.
    Null,
    /// A boolean.
    Bool(bool),
    /// A number's text.
    Number(Seq<char>),
    /// A string.
    Str(Seq<char>),
    /// An array.
    Array(Seq<JsonV>),
    /// An object's entries.
    Object(Seq<(Seq<char>, JsonV)>),
}

/// The mathematical form of a value.
pub open spec fn jview(j: Json) -> JsonV
    decreases j,
{
    match j {
        Json::Null => JsonV::Null,
        Json::Bool(b) => JsonV::Bool(b),
        Json::Number(n) => JsonV::Number(n@),
        Json::Str(s) => JsonV::Str(s@),
        Json::Array(v) => JsonV::Array(
            Seq::new(
                v@.len(),
                |i: int|
                    if 0 <= i < v@.len() {
                        jview(v@[i])
                    } else {
                        JsonV::Null
                    },
            ),
        ),
        Json::Object(v) => JsonV::Object(
            Seq::new(
                v@.len(),
                |i: int|
                    if 0 <= i < v@.len() {
                        (v@[i].0@, jview(v@[i].1))
                    } else {
                        (Seq::empty(), JsonV::Null)
                    },
            ),
        ),
    }
}

impl View for Json {
    type V = JsonV;

    open spec fn view(&self) -> JsonV {
        jview(*self)
    }
}

/// The value of the first entry with key `key`.
pub open spec fn field(entries: Seq<(Seq<char>, JsonV)>, key: Seq<char>) -> Option<JsonV>
    decreases entries.len(),
{
    if entries.len() == 0 {
        None
    } else if entries[0].0 == key {
        Some(entries[0].1)
    } else {
        field(entries.drop_first(), key)
    }
}

/// One path step: an object's field, or an array's element by decimal index.
pub open spec fn child_of(v: JsonV, seg: Seq<char>) -> Option<JsonV> {
    match v {
        JsonV::Object(es) => field(es, seg),
        JsonV::Array(xs) => match unsigned_value(seg) {
            Some(n) => if n < xs.len() {
                Some(xs[n as int])
            } else {
                None
            },
            None => None,
        },
        _ => None,
    }
}

/// Follow the path segments `segs` from `v`.
pub open spec fn lookup(v: JsonV, segs: Seq<Seq<char>>) -> Option<JsonV>
    decreases segs.len(),
{
    if segs.len() == 0 {
        Some(v)
    } else {
        match child_of(v, segs[0]) {
            Some(c) => lookup(c, segs.drop_first()),
            None => None,
        }
    }
}

/// The pieces of `s` between occurrences of `c`, after the pending piece `cur`
/// (`str::split`, empty pieces included).
pub open spec fn split_from(s: Seq<char>, c: char, cur: Seq<char>) -> Seq<Seq<char>>
    decreases s.len(),
{
    if s.len() == 0 {
        seq![cur]
    } else if s[0] == c {
        seq![cur] + split_from(s.drop_first(), c, seq![])
    } else {
        split_from(s.drop_first(), c, cur.push(s[0]))
    }
}

/// The segments of a dot-path.
pub open spec fn segments(path: Seq<char>) -> Seq<Seq<char>> {
    split_from(path, '.', seq![])
}

/// The value a dot-path addresses; the empty path is the root itself.
pub open spec fn value_at(root: JsonV, path: Seq<char>) -> Option<JsonV> {
    if path.len() == 0 {
        Some(root)
    } else {
        lookup(root, segments(path))
    }
}

/// The textual form of a scalar, or `None` for objects and arrays.
pub open spec fn scalar_text(v: JsonV) -> Option<Seq<char>> {
    match v {
        JsonV::Str(s) => Some(s),
        JsonV::Bool(b) => Some(
            if b {
                "true"@
            } else {
                "false"@
            },
        ),
        JsonV::Number(n) => Some(n),
        JsonV::Null => Some("null"@),
        _ => None,
    }
}

/// The scalar text at a path, or `None` if it is missing or not a scalar.
pub open spec fn scalar_at(root: JsonV, path: Seq<char>) -> Option<Seq<char>> {
    match value_at(root, path) {
        Some(v) => scalar_text(v),
        None => None,
    }
}

/// Split `s` at every `c`.
pub fn split_char(s: &[char], c: char) -> (out: Vec<Vec<char>>)
    ensures
        views(out@) == split_from(s@, c, seq![]),
{
    let mut out: Vec<Vec<char>> = Vec::new();
    let mut cur: Vec<char> = Vec::new();
    let mut i: usize = 0;
    assert(s@.skip(0) =~= s@);
    while i < s.len()
        invariant
            i <= s@.len(),
            split_from(s@, c, seq![]) == views(out@) + split_from(s@.skip(i as int), c, cur@),
        decreases s@.len() - i,
    {
        let x = s[i];
        assert(s@.skip(i as int).drop_first() =~= s@.skip(i + 1));
        if x == c {
            let ghost before = out@;
            out.push(cur);
            assert(views(out@) =~= views(before) + seq![cur@]);
            cur = Vec::new();
            assert(cur@ =~= Seq::<char>::empty());
        } else {
            cur.push(x);
        }
        i = i + 1;
    }
    let ghost before = out@;
    out.push(cur);
    assert(views(out@) =~= views(before) + seq![cur@]);
    out
}

impl Json {
    /// `null`.
    pub fn null() -> (j: Json)
        ensures
            j@ == JsonV::Null,
    {
        Json::Null
    }

    /// A boolean.
    pub fn boolean(b: bool) -> (j: Json)
        ensures
            j@ == JsonV::Bool(b),
    {
        Json::Bool(b)
    }

    /// A string.
    pub fn string(s: &str) -> (j: Json)
        ensures
            j@ == JsonV::Str(s@),
    {
        let mut t = String::new();
        push_str(&mut t, s);
        assert(t@ =~= s@);
        Json::Str(t)
    }

    /// A number given by its text.
    pub fn number(text: &str) -> (j: Json)
        ensures
            j@ == JsonV::Number(text@),
    {
        let mut t = String::new();
        push_str(&mut t, text);
        assert(t@ =~= text@);
        Json::Number(t)
    }

    /// An integer, written in decimal.
    pub fn integer(n: i64) -> (j: Json)
        ensures
            j@ == JsonV::Number(
                if n < 0 {
                    seq!['-'] + crate::text::dec((-n) as nat)
                } else {
                    crate::text::dec(n as nat)
                },
            ),
    {
        let mut t = String::new();
        if n < 0 {
            push_char(&mut t, '-');
            let m: u128 = (0i128 - n as i128) as u128;
            crate::text::push_dec(&mut t, m);
        } else {
            crate::text::push_dec(&mut t, n as u128);
        }
        assert(t@ =~= (if n < 0 { seq!['-'] + crate::text::dec((-n) as nat) } else { crate::text::dec(n as nat) }));
        Json::Number(t)
    }

    /// An array.
    pub fn array(items: Vec<Json>) -> (j: Json)
        ensures
            j@ == jview(Json::Array(items)),
    {
        Json::Array(items)
    }

    /// An object from `(key, value)` entries, in order.
    pub fn object(entries: Vec<(String, Json)>) -> (j: Json)
        ensures
            j@ == jview(Json::Object(entries)),
    {
        Json::Object(entries)
    }

    /// The value under `key`, for an object.
    pub fn get(&self, key: &str) -> (r: Option<&Json>)
        ensures
            match r {
                Some(v) => child_of(self@, key@) == Some(v@) && self@ is Object,
                None => !(self@ is Object) || child_of(self@, key@) is None,
            },
    {
        let k = chars_of(key);
        match self {
            Json::Object(_) => self.field_of(&k),
            _ => None,
        }
    }

    fn field_of(&self, key: &[char]) -> (r: Option<&Json>)
        requires
            self@ is Object,
        ensures
            match r {
                Some(v) => child_of(self@, key@) == Some(v@),
                None => child_of(self@, key@) is None,
            },
    {
        match self {
            Json::Object(es) => {
                let ghost ev = match self@ { JsonV::Object(e) => e, _ => Seq::empty() };
                assert(ev.skip(0) =~= ev);
                let mut i: usize = 0;
                while i < es.len()
                    invariant
                        i <= es@.len(),
                        self@ == JsonV::Object(ev),
                        ev.len() == es@.len(),
                        forall|m: int| 0 <= m < es@.len() ==> ev[m] == (#[trigger] es@[m].0@, es@[m].1@),
                        field(ev, key@) == field(ev.skip(i as int), key@),
                    decreases es@.len() - i,
                {
                    assert(ev.skip(i as int).drop_first() =~= ev.skip(i + 1));
                    assert(ev[i as int] == (es@[i as int].0@, es@[i as int].1@));
                    assert(ev.skip(i as int)[0] == ev[i as int]);
                    let kv = chars_of(es[i].0.as_str());
                    if eq_chars(&kv, key) {
                        assert(ev.skip(i as int)[0].0 == key@);
                        return Some(&es[i].1);
                    }
                    i = i + 1;
                }
                None
            },
            _ => None,
        }
    }

    /// One path step from this value.
    pub fn child(&self, seg: &[char]) -> (r: Option<&Json>)
        ensures
            match r {
                Some(v) => child_of(self@, seg@) == Some(v@),
                None => child_of(self@, seg@) is None,
            },
    {
        match self {
            Json::Object(_) => {
                self.field_of(seg)
            },
            Json::Array(xs) => {
                let len = xs.len();
                match parse_unsigned(seg, usize::MAX as u64) {
                Some(n) => {
                    if (n as usize) < len {
                        Some(&xs[n as usize])
                    } else {
                        None
                    }
                },
                None => None,
                }
            },
            _ => None,
        }
    }

    /// The value a dot-path addresses.
    pub fn at(&self, path: &[char]) -> (r: Option<&Json>)
        ensures
            match r {
                Some(v) => value_at(self@, path@) == Some(v@),
                None => value_at(self@, path@) is None,
            },
    {
        if path.len() == 0 {
            return Some(self);
        }
        let segs = split_char(path, '.');
        let ghost ss = segments(path@);
        assert(value_at(self@, path@) == lookup(self@, ss));
        let mut cur: &Json = self;
        let mut i: usize = 0;
        assert(ss.skip(0) =~= ss);
        while i < segs.len()
            invariant
                value_at(self@, path@) == lookup(self@, ss),
                ss == views(segs@),
                i <= segs@.len(),
                lookup(self@, ss) == lookup(cur@, ss.skip(i as int)),
            decreases segs@.len() - i,
        {
            assert(ss.skip(i as int).drop_first() =~= ss.skip(i + 1));
            assert(ss.skip(i as int)[0] == segs@[i as int]@);
            assert(ss.skip(i as int).len() > 0);
            match cur.child(&segs[i]) {
                Some(c) => {
                    cur = c;
                },
                None => {
                    return None;
                },
            }
            i = i + 1;
        }
        Some(cur)
    }

    /// The textual form of this value if it is a scalar.
    pub fn scalar_string(&self) -> (r: Option<String>)
        ensures
            match r {
                Some(s) => scalar_text(self@) == Some(s@),
                None => scalar_text(self@) is None,
            },
    {
        let mut t = String::new();
        match self {
            Json::Str(s) => push_str(&mut t, s.as_str()),
            Json::Bool(b) => {
                if *b {
                    push_str(&mut t, "true");
                } else {
                    push_str(&mut t, "false");
                }
            },
            Json::Number(n) => push_str(&mut t, n.as_str()),
            Json::Null => push_str(&mut t, "null"),
            _ => {
                return None;
            },
        }
        assert(t@ =~= scalar_text(self@)->0);
        Some(t)
    }
}

/// Whether two character sequences are equal.
pub fn eq_chars(a: &[char], b: &[char]) -> (r: bool)
    ensures
        r == (a@ == b@),
{
    if a.len() != b.len() {
        return false;
    }
    let mut i: usize = 0;
    while i < a.len()
        invariant
            a@.len() == b@.len(),
            i <= a@.len(),
            forall|k: int| 0 <= k < i ==> a@[k] == b@[k],
        decreases a@.len() - i,
    {
        if a[i] != b[i] {
            assert(a@[i as int] != b@[i as int]);
            return false;
        }
        i = i + 1;
    }
    assert(a@ =~= b@);
    true
}

/// Whether two values are the same document.
pub fn json_equal(a: &Json, b: &Json) -> (r: bool)
    ensures
        r == (a@ == b@),
    decreases a,
{
    match (a, b) {
        (Json::Null, Json::Null) => true,
        (Json::Bool(x), Json::Bool(y)) => *x == *y,
        (Json::Number(x), Json::Number(y)) => {
            let xv = chars_of(x.as_str());
            eq_str(&xv, y.as_str())
        },
        (Json::Str(x), Json::Str(y)) => {
            let xv = chars_of(x.as_str());
            eq_str(&xv, y.as_str())
        },
        (Json::Array(xs), Json::Array(ys)) => {
            if xs.len() != ys.len() {
                assert(a@->Array_0.len() != b@->Array_0.len());
                return false;
            }
            let mut i: usize = 0;
            while i < xs.len()
                invariant
                    xs@.len() == ys@.len(),
                    i <= xs@.len(),
                    a@ == jview(Json::Array(*xs)),
                    b@ == jview(Json::Array(*ys)),
                    *a == Json::Array(*xs),
                    forall|m: int| 0 <= m < i ==> (#[trigger] xs@[m])@ == ys@[m]@,
                decreases xs@.len() - i,
            {
                proof {
                    broadcast use vstd::std_specs::vec::axiom_vec_decreases_to_view, vstd::seq::axiom_seq_index_decreases;
                    assert(*a == Json::Array(*xs));
                    assert(decreases_to!(*a => *xs));
                    assert(decreases_to!(*xs => xs@));
                    assert(decreases_to!(xs@ => xs@[i as int]));
                    assert(decreases_to!(*a => xs@[i as int]));
                }
                if !json_equal(&xs[i], &ys[i]) {
                    assert(a@->Array_0[i as int] != b@->Array_0[i as int]);
                    return false;
                }
                i = i + 1;
            }
            assert(a@->Array_0 =~= b@->Array_0);
            true
        },
        (Json::Object(xs), Json::Object(ys)) => {
            if xs.len() != ys.len() {
                assert(a@->Object_0.len() != b@->Object_0.len());
                return false;
            }
            let mut i: usize = 0;
            while i < xs.len()
                invariant
                    xs@.len() == ys@.len(),
                    i <= xs@.len(),
                    a@ == jview(Json::Object(*xs)),
                    b@ == jview(Json::Object(*ys)),
                    *a == Json::Object(*xs),
                    forall|m: int| 0 <= m < i ==> (#[trigger] xs@[m]).0@ == ys@[m].0@ && xs@[m].1@ == ys@[m].1@,
                decreases xs@.len() - i,
            {
                let kv = chars_of(xs[i].0.as_str());
                if !eq_str(&kv, ys[i].0.as_str()) {
                    assert(a@->Object_0[i as int] != b@->Object_0[i as int]);
                    return false;
                }
                proof {
                    broadcast use vstd::std_specs::vec::axiom_vec_decreases_to_view, vstd::seq::axiom_seq_index_decreases;
                    assert(*a == Json::Object(*xs));
                    assert(decreases_to!(*a => *xs));
                    assert(decreases_to!(*xs => xs@));
                    assert(decreases_to!(xs@ => xs@[i as int]));
                    assert(decreases_to!(xs@[i as int] => xs@[i as int].1));
                    assert(decreases_to!(*a => xs@[i as int].1));
                }
                if !json_equal(&xs[i].1, &ys[i].1) {
                    assert(a@->Object_0[i as int] != b@->Object_0[i as int]);
                    return false;
                }
                i = i + 1;
            }
            assert(a@->Object_0 =~= b@->Object_0);
            true
        },
        _ => false,
    }
}


/// A copy of a value.
pub fn duplicate(j: &Json) -> (r: Json)
    ensures
        r@ == j@,
    decreases j,
{
    match j {
        Json::Null => Json::Null,
        Json::Bool(b) => Json::Bool(*b),
        Json::Number(n) => {
            let mut t = String::new();
            push_str(&mut t, n.as_str());
            assert(t@ =~= n@);
            Json::Number(t)
        },
        Json::Str(s) => {
            let mut t = String::new();
            push_str(&mut t, s.as_str());
            assert(t@ =~= s@);
            Json::Str(t)
        },
        Json::Array(xs) => {
            let mut out: Vec<Json> = Vec::new();
            let mut i: usize = 0;
            while i < xs.len()
                invariant
                    i <= xs@.len(),
                    *j == Json::Array(*xs),
                    out@.len() == i,
                    forall|m: int| 0 <= m < i ==> (#[trigger] out@[m])@ == xs@[m]@,
                decreases xs@.len() - i,
            {
                proof {
                    broadcast use vstd::std_specs::vec::axiom_vec_decreases_to_view, vstd::seq::axiom_seq_index_decreases;
                    assert(*j == Json::Array(*xs));
                    assert((*j)->Array_0 == *xs);
                    assert(decreases_to!(*j => (*j)->Array_0));
                    assert(decreases_to!(*xs => xs@));
                    assert(decreases_to!(xs@ => xs@[i as int]));
                    assert(decreases_to!(*j => xs@[i as int]));
                }
                out.push(duplicate(&xs[i]));
                i = i + 1;
            }
            let r = Json::Array(out);
            assert(r@->Array_0 =~= j@->Array_0);
            r
        },
        Json::Object(es) => {
            let mut out: Vec<(String, Json)> = Vec::new();
            let mut i: usize = 0;
            while i < es.len()
                invariant
                    i <= es@.len(),
                    *j == Json::Object(*es),
                    out@.len() == i,
                    forall|m: int| 0 <= m < i ==> (#[trigger] out@[m]).0@ == es@[m].0@ && out@[m].1@ == es@[m].1@,
                decreases es@.len() - i,
            {
                proof {
                    broadcast use vstd::std_specs::vec::axiom_vec_decreases_to_view, vstd::seq::axiom_seq_index_decreases;
                    assert(*j == Json::Object(*es));
                    assert((*j)->Object_0 == *es);
                    assert(decreases_to!(*j => (*j)->Object_0));
                    assert(decreases_to!(*es => es@));
                    assert(decreases_to!(es@ => es@[i as int]));
                    assert(decreases_to!(es@[i as int] => es@[i as int].1));
                    assert(decreases_to!(*j => es@[i as int].1));
                }
                let mut k = String::new();
                push_str(&mut k, es[i].0.as_str());
                assert(k@ =~= es@[i as int].0@);
                let v = duplicate(&es[i].1);
                out.push((k, v));
                i = i + 1;
            }
            let r = Json::Object(out);
            assert(r@->Object_0 =~= j@->Object_0);
            r
        },
    }
}

} // verus!
