//! Introspection over a state-seam JSON document.
//!
//! - [`leaves`] enumerates every assertable dot-path, so you can see the
//!   surface a condition addresses before writing one.
//! - [`validate`] checks a document against the seam contract, an object with
//!   scalar leaves, as when bringing up a new (often non-Rust) adapter.
use crate::condition::{holds, CondV};
use crate::json::{child_of, field, jview, lookup, scalar_text, segments, split_from, value_at, Json, JsonV};
use crate::text::{
    chars_of, push_char,
    all_digits, dec, digit_char, digits_value, is_digit, push_dec, push_str, unsigned_value,
};
use vstd::prelude::*;
use vstd::utf8::encode_utf8;

verus! {

/// One assertable leaf: its dot-path, the scalar's textual form, and its JSON
/// type name (`string`, `number`, `bool`, `null`).
#[derive(Debug, Clone, PartialEq, Eq)]
pub struct Leaf {
    /// The dot-path.
    pub path: String,
    /// The scalar's text.
    pub value: String,
    /// The JSON type name.
    pub kind: &'static str,
}

/// The mathematical form of a [`Leaf`].
pub struct LeafV {
    /// The dot-path.
    pub path: Seq<char>,
    /// The scalar's text.
    pub value: Seq<char>,
    /// The JSON type name.
    pub kind: Seq<char>,
}

impl View for Leaf {
    type V = LeafV;

    open spec fn view(&self) -> LeafV {
        LeafV { path: self.path@, value: self.value@, kind: self.kind@ }
    }
}

/// The views of leaves.
pub open spec fn leaf_views(v: Seq<Leaf>) -> Seq<LeafV> {
    v.map_values(|l: Leaf| l@)
}

/// A child's path under `prefix`: the segment itself at the root, else
/// `prefix.seg`.
pub open spec fn join(prefix: Seq<char>, seg: Seq<char>) -> Seq<char> {
    if prefix.len() == 0 {
        seg
    } else {
        prefix + "."@ + seg
    }
}

/// The JSON type name of a scalar.
pub open spec fn kind_of(v: JsonV) -> Seq<char> {
    match v {
        JsonV::Str(_) => "string"@,
        JsonV::Number(_) => "number"@,
        JsonV::Bool(_) => "bool"@,
        _ => "null"@,
    }
}

/// Every scalar leaf under `v`, which sits at `prefix`, in document order.
/// Objects and arrays are traversed, not emitted.
pub open spec fn leaves_of(v: JsonV, prefix: Seq<char>) -> Seq<LeafV>
    decreases v, 1int,
{
    match v {
        JsonV::Object(es) => entry_leaves(es, prefix),
        JsonV::Array(xs) => item_leaves(xs, prefix),
        _ => seq![LeafV { path: prefix, value: scalar_text(v)->0, kind: kind_of(v) }],
    }
}

/// The leaves under an object's entries, in order.
pub open spec fn entry_leaves(es: Seq<(Seq<char>, JsonV)>, prefix: Seq<char>) -> Seq<LeafV>
    decreases es, 0int,
{
    if es.len() == 0 {
        seq![]
    } else {
        let init = es.subrange(0, es.len() - 1);
        let last = es[es.len() - 1];
        proof {
            assert(decreases_to!(es => es[es.len() - 1]));
            assert(decreases_to!(es[es.len() - 1] => es[es.len() - 1].1));
        }
        entry_leaves(init, prefix) + leaves_of(last.1, join(prefix, last.0))
    }
}

/// The leaves under an array's items, each at its decimal index.
pub open spec fn item_leaves(xs: Seq<JsonV>, prefix: Seq<char>) -> Seq<LeafV>
    decreases xs, 0int,
{
    if xs.len() == 0 {
        seq![]
    } else {
        let n = (xs.len() - 1) as nat;
        let init = xs.subrange(0, n as int);
        proof {
            assert(decreases_to!(xs => xs[n as int]));
        }
        item_leaves(init, prefix) + leaves_of(xs[n as int], join(prefix, dec(n)))
    }
}

fn join_exec(prefix: &str, seg: &str) -> (r: String)
    ensures
        r@ == join(prefix@, seg@),
{
    let mut out = String::new();
    push_str(&mut out, prefix);
    if !prefix.is_empty() {
        push_str(&mut out, ".");
    }
    push_str(&mut out, seg);
    out
}

fn walk(v: &Json, prefix: &str, out: &mut Vec<Leaf>)
    ensures
        leaf_views(final(out)@) == leaf_views(old(out)@) + leaves_of(v@, prefix@),
    decreases v,
{
    match v {
        Json::Object(es) => {
            let ghost ev = v@->Object_0;
            let ghost base = leaf_views(out@);
            let mut i: usize = 0;
            assert(ev.subrange(0, 0) =~= Seq::<(Seq<char>, JsonV)>::empty());
            assert(base + Seq::<LeafV>::empty() =~= base);
            while i < es.len()
                invariant
                    i <= es@.len(),
                    *v == Json::Object(*es),
                    ev == v@->Object_0,
                    ev.len() == es@.len(),
                    forall|m: int| 0 <= m < es@.len() ==> ev[m] == (#[trigger] es@[m].0@, es@[m].1@),
                    leaf_views(out@) == base + entry_leaves(ev.subrange(0, i as int), prefix@),
                decreases es@.len() - i,
            {
                proof {
                    broadcast use vstd::std_specs::vec::axiom_vec_decreases_to_view, vstd::seq::axiom_seq_index_decreases;
                    assert((*v)->Object_0 == *es);
                    assert(decreases_to!(*v => (*v)->Object_0));
                    assert(decreases_to!(*es => es@));
                    assert(decreases_to!(es@ => es@[i as int]));
                    assert(decreases_to!(es@[i as int] => es@[i as int].1));
                    assert(decreases_to!(*v => es@[i as int].1));
                }
                let p = join_exec(prefix, es[i].0.as_str());
                let ghost before = leaf_views(out@);
                walk(&es[i].1, p.as_str(), out);
                proof {
                    let sub = ev.subrange(0, i + 1);
                    assert(sub.subrange(0, sub.len() - 1) =~= ev.subrange(0, i as int));
                    assert(sub[sub.len() - 1] == ev[i as int]);
                    assert(entry_leaves(sub, prefix@) == entry_leaves(ev.subrange(0, i as int), prefix@)
                        + leaves_of(ev[i as int].1, join(prefix@, ev[i as int].0)));
                    assert(leaf_views(out@) =~= base + entry_leaves(sub, prefix@));
                }
                i = i + 1;
            }
            assert(ev.subrange(0, es@.len() as int) =~= ev);
        },
        Json::Array(xs) => {
            let ghost xv = v@->Array_0;
            let ghost base = leaf_views(out@);
            let mut i: usize = 0;
            assert(xv.subrange(0, 0) =~= Seq::<JsonV>::empty());
            assert(base + Seq::<LeafV>::empty() =~= base);
            while i < xs.len()
                invariant
                    i <= xs@.len(),
                    *v == Json::Array(*xs),
                    xv == v@->Array_0,
                    xv.len() == xs@.len(),
                    forall|m: int| 0 <= m < xs@.len() ==> xv[m] == (#[trigger] xs@[m])@,
                    leaf_views(out@) == base + item_leaves(xv.subrange(0, i as int), prefix@),
                decreases xs@.len() - i,
            {
                proof {
                    broadcast use vstd::std_specs::vec::axiom_vec_decreases_to_view, vstd::seq::axiom_seq_index_decreases;
                    assert((*v)->Array_0 == *xs);
                    assert(decreases_to!(*v => (*v)->Array_0));
                    assert(decreases_to!(*xs => xs@));
                    assert(decreases_to!(xs@ => xs@[i as int]));
                    assert(decreases_to!(*v => xs@[i as int]));
                }
                let mut seg = String::new();
                push_dec(&mut seg, i as u128);
                let p = join_exec(prefix, seg.as_str());
                walk(&xs[i], p.as_str(), out);
                proof {
                    let sub = xv.subrange(0, i + 1);
                    assert(sub.subrange(0, i as int) =~= xv.subrange(0, i as int));
                    assert(sub[i as int] == xv[i as int]);
                    assert(item_leaves(sub, prefix@) == item_leaves(xv.subrange(0, i as int), prefix@)
                        + leaves_of(xv[i as int], join(prefix@, dec(i as nat))));
                    assert(leaf_views(out@) =~= base + item_leaves(sub, prefix@));
                }
                i = i + 1;
            }
            assert(xv.subrange(0, xs@.len() as int) =~= xv);
        },
        _ => {
            let (kind, value): (&'static str, String) = match v {
                Json::Str(s) => {
                    let mut t = String::new();
                    push_str(&mut t, s.as_str());
                    ("string", t)
                },
                Json::Number(n) => {
                    let mut t = String::new();
                    push_str(&mut t, n.as_str());
                    ("number", t)
                },
                Json::Bool(b) => {
                    let mut t = String::new();
                    if *b {
                        push_str(&mut t, "true");
                    } else {
                        push_str(&mut t, "false");
                    }
                    ("bool", t)
                },
                _ => {
                    let mut t = String::new();
                    push_str(&mut t, "null");
                    ("null", t)
                },
            };
            let mut path = String::new();
            push_str(&mut path, prefix);
            assert(value@ =~= scalar_text(v@)->0);
            assert(path@ =~= prefix@);
            let ghost before = out@;
            out.push(Leaf { path, value, kind });
            assert(leaf_views(out@) =~= leaf_views(before) + leaves_of(v@, prefix@));
        },
    }
}

/// Every scalar leaf in `root`, as dot-paths. Array elements use numeric
/// segments (`rows.0.name`); objects and arrays are traversed, not emitted,
/// so the result is exactly the set of paths a condition can target.
pub fn leaves(root: &Json) -> (r: Vec<Leaf>)
    ensures
        leaf_views(r@) == leaves_of(root@, Seq::empty()),
{
    let mut out: Vec<Leaf> = Vec::new();
    let root_path = "";
    proof {
        reveal_strlit("");
        assert(root_path@ =~= Seq::<char>::empty());
    }
    walk(root, root_path, &mut out);
    proof {
        assert(leaf_views(Seq::<Leaf>::empty()) =~= Seq::<LeafV>::empty());
        assert(Seq::<LeafV>::empty() + leaves_of(root@, Seq::empty()) =~= leaves_of(root@, Seq::empty()));
    }
    out
}

// ---------------------------------------------------------------------------
// Every listed leaf is assertable
// ---------------------------------------------------------------------------

/// A key a dot-path can name: non-empty and free of `.`.
pub open spec fn plain_key(k: Seq<char>) -> bool {
    k.len() > 0 && forall|i: int| 0 <= i < k.len() ==> k[i] != '.'
}

/// The keys of an object's entries are plain and distinct.
pub open spec fn plain_keys(es: Seq<(Seq<char>, JsonV)>) -> bool {
    &&& forall|i: int| 0 <= i < es.len() ==> plain_key(#[trigger] es[i].0)
    &&& forall|i: int, j: int| 0 <= j < i < es.len() ==> #[trigger] es[j].0 != #[trigger] es[i].0
}

/// A document whose object keys are plain and distinct within each object,
/// all the way down: the documents in which a dot-path names one value.
pub open spec fn plain_doc(v: JsonV) -> bool
    decreases v,
{
    match v {
        JsonV::Object(es) => plain_keys(es) && forall|i: int|
            0 <= i < es.len() ==> plain_doc(#[trigger] es[i].1),
        JsonV::Array(xs) => forall|i: int| 0 <= i < xs.len() ==> plain_doc(#[trigger] xs[i]),
        _ => true,
    }
}

/// The leaf's path names a scalar whose text is the leaf's value and whose
/// JSON type is the leaf's kind.
pub open spec fn resolves(root: JsonV, l: LeafV) -> bool {
    match value_at(root, l.path) {
        Some(w) => scalar_text(w) == Some(l.value) && kind_of(w) == l.kind,
        None => false,
    }
}

/// Every leaf's path resolves to a scalar with the leaf's text and type.
pub open spec fn all_resolve(root: JsonV, ls: Seq<LeafV>) -> bool {
    forall|i: int| 0 <= i < ls.len() ==> resolves(root, #[trigger] ls[i])
}

/// How many scalar nodes `v` holds, all the way down.
pub open spec fn scalar_count(v: JsonV) -> nat
    decreases v, 1int,
{
    match v {
        JsonV::Object(es) => entry_count(es),
        JsonV::Array(xs) => item_count(xs),
        _ => 1,
    }
}

/// How many scalar nodes an object's entries hold.
pub open spec fn entry_count(es: Seq<(Seq<char>, JsonV)>) -> nat
    decreases es, 0int,
{
    if es.len() == 0 {
        0
    } else {
        proof {
            assert(decreases_to!(es => es[es.len() - 1]));
            assert(decreases_to!(es[es.len() - 1] => es[es.len() - 1].1));
        }
        entry_count(es.subrange(0, es.len() - 1)) + scalar_count(es[es.len() - 1].1)
    }
}

/// How many scalar nodes an array's items hold.
pub open spec fn item_count(xs: Seq<JsonV>) -> nat
    decreases xs, 0int,
{
    if xs.len() == 0 {
        0
    } else {
        proof {
            assert(decreases_to!(xs => xs[xs.len() - 1]));
        }
        item_count(xs.subrange(0, xs.len() - 1)) + scalar_count(xs[xs.len() - 1])
    }
}

/// Each scalar node yields exactly one leaf, wherever the value sits.
proof fn lemma_leaf_count(v: JsonV, prefix: Seq<char>)
    ensures
        leaves_of(v, prefix).len() == scalar_count(v),
    decreases v, 1int,
{
    match v {
        JsonV::Object(es) => lemma_entry_count(es, prefix),
        JsonV::Array(xs) => lemma_item_count(xs, prefix),
        _ => {},
    }
}

proof fn lemma_entry_count(es: Seq<(Seq<char>, JsonV)>, prefix: Seq<char>)
    ensures
        entry_leaves(es, prefix).len() == entry_count(es),
    decreases es, 0int,
{
    if es.len() > 0 {
        let last = es[es.len() - 1];
        assert(decreases_to!(es => es[es.len() - 1]));
        assert(decreases_to!(es[es.len() - 1] => es[es.len() - 1].1));
        lemma_entry_count(es.subrange(0, es.len() - 1), prefix);
        lemma_leaf_count(last.1, join(prefix, last.0));
    }
}

proof fn lemma_item_count(xs: Seq<JsonV>, prefix: Seq<char>)
    ensures
        item_leaves(xs, prefix).len() == item_count(xs),
    decreases xs, 0int,
{
    if xs.len() > 0 {
        let n = (xs.len() - 1) as nat;
        assert(decreases_to!(xs => xs[n as int]));
        lemma_item_count(xs.subrange(0, n as int), prefix);
        lemma_leaf_count(xs[n as int], join(prefix, dec(n)));
    }
}

proof fn lemma_split_nonempty(s: Seq<char>, c: char, cur: Seq<char>)
    ensures
        split_from(s, c, cur).len() >= 1,
    decreases s.len(),
{
    if s.len() > 0 {
        if s[0] == c {
            lemma_split_nonempty(s.drop_first(), c, seq![]);
        } else {
            lemma_split_nonempty(s.drop_first(), c, cur.push(s[0]));
        }
    }
}

proof fn lemma_split_append(p: Seq<char>, t: Seq<char>, c: char, cur: Seq<char>)
    ensures
        split_from(p + t, c, cur) == split_from(p, c, cur).drop_last() + split_from(
            t,
            c,
            split_from(p, c, cur).last(),
        ),
    decreases p.len(),
{
    lemma_split_nonempty(p, c, cur);
    if p.len() == 0 {
        assert(p + t =~= t);
        assert(split_from(p, c, cur).drop_last() + split_from(t, c, cur) =~= split_from(t, c, cur));
    } else {
        assert((p + t)[0] == p[0]);
        assert((p + t).drop_first() =~= p.drop_first() + t);
        if p[0] == c {
            lemma_split_append(p.drop_first(), t, c, seq![]);
            lemma_split_nonempty(p.drop_first(), c, seq![]);
            let rest = split_from(p.drop_first(), c, seq![]);
            assert((seq![cur] + rest).drop_last() =~= seq![cur] + rest.drop_last());
            assert((seq![cur] + rest).last() == rest.last());
            assert(seq![cur] + (rest.drop_last() + split_from(t, c, rest.last())) =~= (seq![cur]
                + rest.drop_last()) + split_from(t, c, rest.last()));
        } else {
            lemma_split_append(p.drop_first(), t, c, cur.push(p[0]));
        }
    }
}

proof fn lemma_split_plain(k: Seq<char>, cur: Seq<char>)
    requires
        forall|i: int| 0 <= i < k.len() ==> k[i] != '.',
    ensures
        split_from(k, '.', cur) == seq![cur + k],
    decreases k.len(),
{
    if k.len() == 0 {
        assert(cur + k =~= cur);
    } else {
        assert(k[0] != '.');
        lemma_split_plain(k.drop_first(), cur.push(k[0]));
        assert(cur.push(k[0]) + k.drop_first() =~= cur + k);
    }
}

/// The segments of `prefix.k` are those of `prefix` and then `k`.
proof fn lemma_segments_join(prefix: Seq<char>, k: Seq<char>)
    requires
        prefix.len() > 0,
        plain_key(k),
    ensures
        segments(join(prefix, k)) == segments(prefix).push(k),
{
    let t = seq!['.'] + k;
    reveal_strlit(".");
    assert(join(prefix, k) =~= prefix + t);
    lemma_split_append(prefix, t, '.', seq![]);
    lemma_split_nonempty(prefix, '.', seq![]);
    let sp = split_from(prefix, '.', seq![]);
    assert(t[0] == '.');
    assert(t.drop_first() =~= k);
    lemma_split_plain(k, seq![]);
    assert(Seq::<char>::empty() + k =~= k);
    assert(split_from(t, '.', sp.last()) =~= seq![sp.last()] + seq![k]);
    assert(sp.drop_last() + (seq![sp.last()] + seq![k]) =~= sp.push(k));
}

proof fn lemma_lookup_push(v: JsonV, segs: Seq<Seq<char>>, k: Seq<char>)
    ensures
        lookup(v, segs.push(k)) == match lookup(v, segs) {
            Some(w) => child_of(w, k),
            None => None,
        },
    decreases segs.len(),
{
    if segs.len() == 0 {
        assert(seq![k].drop_first() =~= Seq::<Seq<char>>::empty());
        assert(segs.push(k) =~= seq![k]);
        match child_of(v, k) {
            Some(c) => {
                assert(lookup(c, Seq::<Seq<char>>::empty()) == Some(c));
            },
            None => {},
        }
    } else {
        assert(segs.push(k)[0] == segs[0]);
        assert(segs.push(k).drop_first() =~= segs.drop_first().push(k));
        match child_of(v, segs[0]) {
            Some(c) => {
                lemma_lookup_push(c, segs.drop_first(), k);
            },
            None => {},
        }
    }
}

/// Stepping from the value at `prefix` to its child `k` is the value at
/// `prefix.k`.
proof fn lemma_value_at_child(root: JsonV, prefix: Seq<char>, v: JsonV, k: Seq<char>, w: JsonV)
    requires
        value_at(root, prefix) == Some(v),
        plain_key(k),
        child_of(v, k) == Some(w),
    ensures
        value_at(root, join(prefix, k)) == Some(w),
{
    if prefix.len() == 0 {
        lemma_split_plain(k, seq![]);
        assert(Seq::<char>::empty() + k =~= k);
        assert(segments(k) == seq![k]);
        lemma_lookup_push(root, Seq::<Seq<char>>::empty(), k);
        assert(Seq::<Seq<char>>::empty().push(k) =~= seq![k]);
    } else {
        lemma_segments_join(prefix, k);
        lemma_lookup_push(root, segments(prefix), k);
    }
}

proof fn lemma_field_unique(es: Seq<(Seq<char>, JsonV)>, i: int)
    requires
        0 <= i < es.len(),
        forall|j: int| 0 <= j < i ==> es[j].0 != es[i].0,
    ensures
        field(es, es[i].0) == Some(es[i].1),
    decreases i,
{
    if i > 0 {
        let rest = es.drop_first();
        assert(rest[i - 1] == es[i]);
        assert forall|j: int| 0 <= j < i - 1 implies (#[trigger] rest[j]).0 != rest[i - 1].0 by {
            assert(rest[j] == es[j + 1]);
        }
        lemma_field_unique(rest, i - 1);
        assert(es[0].0 != es[i].0);
    }
}

proof fn lemma_dec_digits(n: nat)
    ensures
        all_digits(dec(n)),
        dec(n).len() > 0,
        digits_value(dec(n)) == n,
        forall|i: int| 0 <= i < dec(n).len() ==> dec(n)[i] != '.' && dec(n)[i] != '+',
    decreases n,
{
    let r = (n % 10) as nat;
    assert(((r + 48) as u32) as char as u32 == r + 48);
    assert(crate::text::digit_val(digit_char(r)) == r);
    if n >= 10 {
        lemma_dec_digits(n / 10);
        let d = dec(n / 10);
        let e = dec(n);
        assert(e == d.push(digit_char(r)));
        assert(e.drop_last() =~= d);
        assert(forall|i: int| 0 <= i < d.len() ==> e[i] == d[i]);
        assert(digits_value(e) == digits_value(d) * 10 + r);
    } else {
        let e = dec(n);
        assert(e == seq![digit_char(n)]);
        assert(e.drop_last() =~= Seq::<char>::empty());
        assert(e.last() == digit_char(r));
        assert(digits_value(e) == digits_value(e.drop_last()) * 10 + crate::text::digit_val(e.last()));
    }
}

proof fn lemma_index_child(xs: Seq<JsonV>, n: nat)
    requires
        n < xs.len(),
    ensures
        child_of(JsonV::Array(xs), dec(n)) == Some(xs[n as int]),
        plain_key(dec(n)),
{
    lemma_dec_digits(n);
    assert(unsigned_value(dec(n)) == Some(n));
}

proof fn lemma_all_resolve_append(root: JsonV, a: Seq<LeafV>, b: Seq<LeafV>)
    requires
        all_resolve(root, a),
        all_resolve(root, b),
    ensures
        all_resolve(root, a + b),
{
    assert forall|i: int| 0 <= i < (a + b).len() implies resolves(root, #[trigger] (a + b)[i]) by {
        if i < a.len() {
            assert((a + b)[i] == a[i]);
        } else {
            assert((a + b)[i] == b[i - a.len()]);
        }
    }
}

proof fn lemma_leaves_resolve(root: JsonV, v: JsonV, prefix: Seq<char>)
    requires
        plain_doc(v),
        value_at(root, prefix) == Some(v),
    ensures
        all_resolve(root, leaves_of(v, prefix)),
    decreases v, 0int,
{
    match v {
        JsonV::Object(es) => {
            lemma_entries_resolve(root, v, es, es.len(), prefix);
            assert(es.subrange(0, es.len() as int) =~= es);
        },
        JsonV::Array(xs) => {
            lemma_items_resolve(root, v, xs, xs.len(), prefix);
            assert(xs.subrange(0, xs.len() as int) =~= xs);
        },
        _ => {},
    }
}

proof fn lemma_entries_resolve(
    root: JsonV,
    v: JsonV,
    es: Seq<(Seq<char>, JsonV)>,
    n: nat,
    prefix: Seq<char>,
)
    requires
        v == JsonV::Object(es),
        n <= es.len(),
        plain_doc(v),
        value_at(root, prefix) == Some(v),
    ensures
        all_resolve(root, entry_leaves(es.subrange(0, n as int), prefix)),
    decreases es, n,
{
    if n > 0 {
        let sub = es.subrange(0, n as int);
        assert(sub.subrange(0, sub.len() - 1) =~= es.subrange(0, n - 1));
        assert(sub[sub.len() - 1] == es[n - 1]);
        lemma_entries_resolve(root, v, es, (n - 1) as nat, prefix);
        let k = es[n - 1].0;
        let w = es[n - 1].1;
        let i = n - 1;
        assert(0 <= i < es.len());
        assert(plain_key(es[i].0));
        assert(plain_doc(es[i].1));
        assert forall|j: int| 0 <= j < i implies (#[trigger] es[j]).0 != es[i].0 by {
            assert(es[j].0 != es[i].0);
        }
        lemma_field_unique(es, n - 1);
        lemma_value_at_child(root, prefix, v, k, w);
        assert(decreases_to!(es => es[n - 1]));
        assert(decreases_to!(es[n - 1] => es[n - 1].1));
        lemma_leaves_resolve(root, w, join(prefix, k));
        lemma_all_resolve_append(
            root,
            entry_leaves(es.subrange(0, n - 1), prefix),
            leaves_of(w, join(prefix, k)),
        );
    } else {
        assert(es.subrange(0, 0) =~= Seq::<(Seq<char>, JsonV)>::empty());
    }
}

proof fn lemma_items_resolve(root: JsonV, v: JsonV, xs: Seq<JsonV>, n: nat, prefix: Seq<char>)
    requires
        v == JsonV::Array(xs),
        n <= xs.len(),
        plain_doc(v),
        value_at(root, prefix) == Some(v),
    ensures
        all_resolve(root, item_leaves(xs.subrange(0, n as int), prefix)),
    decreases xs, n,
{
    if n > 0 {
        let m = (n - 1) as nat;
        let sub = xs.subrange(0, n as int);
        assert(sub.subrange(0, m as int) =~= xs.subrange(0, m as int));
        assert(sub[m as int] == xs[m as int]);
        lemma_items_resolve(root, v, xs, m, prefix);
        lemma_index_child(xs, m);
        lemma_value_at_child(root, prefix, v, dec(m), xs[m as int]);
        assert(decreases_to!(xs => xs[m as int]));
        lemma_leaves_resolve(root, xs[m as int], join(prefix, dec(m)));
        lemma_all_resolve_append(
            root,
            item_leaves(xs.subrange(0, m as int), prefix),
            leaves_of(xs[m as int], join(prefix, dec(m))),
        );
    } else {
        assert(xs.subrange(0, 0) =~= Seq::<JsonV>::empty());
    }
}

/// Every path [`leaves`] lists can be asserted, and the list is exactly the
/// scalars: in a document whose object keys are plain (non-empty, without
/// `.`) and distinct, each leaf's dot-path resolves to a scalar whose text is
/// the leaf's value and whose JSON type is the leaf's kind, so an existence
/// condition on it holds; and there is one leaf per scalar node.
pub proof fn lemma_leaves_are_assertable(root: JsonV)
    requires
        plain_doc(root),
    ensures
        all_resolve(root, leaves_of(root, Seq::empty())),
        forall|i: int|
            0 <= i < leaves_of(root, Seq::empty()).len() ==> holds(
                CondV::Exists(#[trigger] leaves_of(root, Seq::empty())[i].path),
                root,
            ),
        leaves_of(root, Seq::empty()).len() == scalar_count(root),
{
    lemma_leaves_resolve(root, root, Seq::empty());
    lemma_leaf_count(root, Seq::empty());
    let ls = leaves_of(root, Seq::empty());
    assert forall|i: int| 0 <= i < ls.len() implies holds(
        CondV::Exists(#[trigger] ls[i].path),
        root,
    ) by {
        assert(resolves(root, ls[i]));
    }
}

/// The width of the path column of a leaf table: the longest path's length,
/// counted as `str::len` counts, in UTF-8 bytes.
pub open spec fn path_width(ls: Seq<LeafV>) -> nat
    decreases ls.len(),
{
    if ls.len() == 0 {
        0
    } else {
        let w = path_width(ls.drop_last());
        let b = encode_utf8(ls.last().path).len();
        if w < b {
            b
        } else {
            w
        }
    }
}

/// `n` spaces.
pub open spec fn spaces(n: nat) -> Seq<char> {
    Seq::new(n, |i: int| ' ')
}

/// One row of a leaf table: the path left-aligned and padded with spaces to
/// `width` characters, then ` = `, the value, and the type in parentheses.
pub open spec fn path_row(l: LeafV, width: nat) -> Seq<char> {
    let pad: nat = if l.path.len() < width {
        (width - l.path.len()) as nat
    } else {
        0
    };
    l.path + spaces(pad) + " = "@ + l.value + "  ("@ + l.kind + ")"@
}

/// The table of leaves a `state --paths` listing prints, one row per leaf in
/// order, all padded to the width of the longest path.
pub fn path_rows(ls: &Vec<Leaf>) -> (r: Vec<String>)
    ensures
        r@.len() == ls@.len(),
        forall|i: int|
            0 <= i < ls@.len() ==> (#[trigger] r@[i])@ == path_row(
                ls@[i]@,
                path_width(leaf_views(ls@)),
            ),
{
    let ghost lv = leaf_views(ls@);
    let mut width: usize = 0;
    let mut i: usize = 0;
    while i < ls.len()
        invariant
            i <= ls@.len(),
            lv == leaf_views(ls@),
            width == path_width(lv.take(i as int)),
        decreases ls@.len() - i,
    {
        let ps = ls[i].path.as_str();
        let b = ps.as_bytes().len();
        proof {
            assert(ps@ == ls@[i as int].path@);
            assert(b == encode_utf8(ps@).len());
            assert(lv[i as int] == ls@[i as int]@);
            assert(lv.take(i + 1).drop_last() =~= lv.take(i as int));
            assert(lv.take(i + 1).last() == lv[i as int]);
            assert(lv.take(i + 1).len() == i + 1);
        }
        if width < b {
            width = b;
        }
        i = i + 1;
    }
    assert(lv.take(ls@.len() as int) =~= lv);
    let mut out: Vec<String> = Vec::new();
    let mut j: usize = 0;
    while j < ls.len()
        invariant
            j <= ls@.len(),
            width == path_width(leaf_views(ls@)),
            out@.len() == j,
            forall|k: int|
                0 <= k < j ==> (#[trigger] out@[k])@ == path_row(ls@[k]@, width as nat),
        decreases ls@.len() - j,
    {
        let l = &ls[j];
        let n = chars_of(l.path.as_str()).len();
        let mut row = String::new();
        push_str(&mut row, l.path.as_str());
        let pad: usize = if n < width {
            width - n
        } else {
            0
        };
        let mut p: usize = 0;
        while p < pad
            invariant
                p <= pad,
                row@ == l.path@ + spaces(p as nat),
            decreases pad - p,
        {
            push_char(&mut row, ' ');
            p = p + 1;
            assert(row@ =~= l.path@ + spaces(p as nat));
        }
        push_str(&mut row, " = ");
        push_str(&mut row, l.value.as_str());
        push_str(&mut row, "  (");
        push_str(&mut row, l.kind);
        push_str(&mut row, ")");
        assert(row@ =~= path_row(l@, width as nat));
        out.push(row);
        j = j + 1;
    }
    out
}

/// The result of checking a document against the seam contract.
#[derive(Debug, Clone, PartialEq, Eq)]
pub struct SeamReport {
    /// True when there are no problems.
    pub ok: bool,
    /// Human-readable contract violations (empty when `ok`).
    pub problems: Vec<String>,
    /// How many assertable paths the document exposes.
    pub paths: usize,
}

/// The contract violations of a seam document: its root must be an object
/// that exposes at least one assertable leaf.
pub open spec fn seam_problems(root: JsonV) -> Seq<Seq<char>> {
    match root {
        JsonV::Object(es) => if es.len() == 0 {
            seq!["root object is empty: no assertable paths"@]
        } else if leaves_of(root, Seq::empty()).len() == 0 {
            seq!["root object has no scalar leaves: no assertable paths"@]
        } else {
            seq![]
        },
        JsonV::Array(_) => seq!["root is an array, expected an object"@],
        _ => seq!["root is a scalar, expected an object"@],
    }
}

/// Check `root` against the seam contract: it must be a JSON object (so
/// conditions have named paths to address) and expose at least one
/// assertable leaf. Nesting and arrays are fine; only the root's shape is
/// constrained.
pub fn validate(root: &Json) -> (r: SeamReport)
    ensures
        r.problems@.map_values(|p: String| p@) == seam_problems(root@),
        r.ok == (seam_problems(root@).len() == 0),
        r.paths == leaves_of(root@, Seq::empty()).len(),
{
    let ls = leaves(root);
    assert(leaf_views(ls@).len() == ls@.len());
    let mut problems: Vec<String> = Vec::new();
    match root {
        Json::Object(es) => {
            if es.len() == 0 {
                let mut m = String::new();
                push_str(&mut m, "root object is empty: no assertable paths");
                problems.push(m);
            } else if ls.len() == 0 {
                let mut m = String::new();
                push_str(&mut m, "root object has no scalar leaves: no assertable paths");
                problems.push(m);
            }
        },
        Json::Array(_) => {
            let mut m = String::new();
            push_str(&mut m, "root is an array, expected an object");
            problems.push(m);
        },
        _ => {
            let mut m = String::new();
            push_str(&mut m, "root is a scalar, expected an object");
            problems.push(m);
        },
    }
    assert(problems@.map_values(|p: String| p@) =~= seam_problems(root@));
    let ok = problems.len() == 0;
    SeamReport { ok, problems, paths: ls.len() }
}

} // verus!
