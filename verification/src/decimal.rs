//! The numeric value of decimal text, and the laws that tie the order of
//! numbers read from text to that value: a condition's `>`, `<`, `>=` and
//! `<=` compare what the digits say, not how they are written.
use crate::number::{digit_run, exp_of, fin, fin_sign, lead_zeros, lex_order, mag_order, num_of, num_order, trail_zeros, vals, NumV};
use crate::condition::{num_holds, op_holds, NumOp};
use crate::text::{all_digits, is_digit, lower_all};
use vstd::prelude::*;

verus! {

/// Ten to the power `n`.
pub open spec fn p10(n: nat) -> nat
    decreases n,
{
    if n == 0 {
        1
    } else {
        10 * p10((n - 1) as nat)
    }
}

/// The value of decimal digits, most significant first: each digit times
/// ten to the power of the number of digits after it, summed.
pub open spec fn dval(d: Seq<u8>) -> nat
    decreases d.len(),
{
    if d.len() == 0 {
        0
    } else {
        d[0] as nat * p10((d.len() - 1) as nat) + dval(d.drop_first())
    }
}

/// Every entry is a decimal digit.
pub open spec fn digits(d: Seq<u8>) -> bool {
    forall|i: int| 0 <= i < d.len() ==> #[trigger] d[i] < 10
}

/// The three-way comparison of two integers.
pub open spec fn order_of(x: int, y: int) -> int {
    if x < y {
        -1
    } else if x > y {
        1
    } else {
        0
    }
}

proof fn lemma_p10_pos(n: nat)
    ensures
        p10(n) >= 1,
    decreases n,
{
    if n > 0 {
        lemma_p10_pos((n - 1) as nat);
    }
}

proof fn lemma_p10_add(a: nat, b: nat)
    ensures
        p10(a + b) == p10(a) * p10(b),
    decreases a,
{
    if a == 0 {
        assert(p10(0) == 1);
        assert(a + b == b);
    } else {
        let a1 = (a - 1) as nat;
        lemma_p10_add(a1, b);
        let x = p10(a1);
        let y = p10(b);
        assert(a + b == (a1 + b) + 1);
        assert(p10(a + b) == 10 * p10(a1 + b));
        assert(p10(a1 + b) == x * y);
        assert(p10(a) == 10 * x);
        assert(10 * (x * y) == (10 * x) * y) by (nonlinear_arith);
    }
}

proof fn lemma_p10_mono(a: nat, b: nat)
    requires
        a <= b,
    ensures
        p10(a) <= p10(b),
    decreases b,
{
    if a < b {
        lemma_p10_mono(a, (b - 1) as nat);
        lemma_p10_pos((b - 1) as nat);
    }
}

/// Digits are worth less than ten to the power of their count.
proof fn lemma_dval_below(d: Seq<u8>)
    requires
        digits(d),
    ensures
        dval(d) < p10(d.len()),
    decreases d.len(),
{
    if d.len() > 0 {
        let r = d.drop_first();
        assert(digits(r)) by {
            assert forall|i: int| 0 <= i < r.len() implies #[trigger] r[i] < 10 by {
                assert(r[i] == d[i + 1]);
            }
        }
        lemma_dval_below(r);
        let m = p10((d.len() - 1) as nat);
        assert(d[0] < 10);
        assert(p10(d.len()) == 10 * m);
        assert(d[0] as nat * m + dval(r) < 10 * m) by (nonlinear_arith)
            requires
                d[0] < 10,
                dval(r) < m,
        ;
    }
}

/// Digits whose first digit is not zero are worth at least ten to the power
/// of their count less one.
proof fn lemma_dval_above(d: Seq<u8>)
    requires
        d.len() > 0,
        d[0] != 0,
    ensures
        dval(d) >= p10((d.len() - 1) as nat),
{
    let m = p10((d.len() - 1) as nat);
    assert(d[0] as nat * m >= m) by (nonlinear_arith)
        requires
            d[0] >= 1,
    ;
}

proof fn lemma_digits_rest(d: Seq<u8>)
    requires
        digits(d),
        d.len() > 0,
    ensures
        digits(d.drop_first()),
        d[0] < 10,
{
    let r = d.drop_first();
    assert forall|i: int| 0 <= i < r.len() implies #[trigger] r[i] < 10 by {
        assert(r[i] == d[i + 1]);
    }
}

/// Digits whose last digit is not zero are worth more than nothing.
proof fn lemma_dval_pos(d: Seq<u8>)
    requires
        d.len() > 0,
        d.last() != 0,
    ensures
        dval(d) > 0,
    decreases d.len(),
{
    if d.len() == 1 {
        assert(d.drop_first().len() == 0);
        assert(d[0] == d.last());
        lemma_p10_pos(0);
        assert(d[0] as nat * p10(0) > 0) by (nonlinear_arith)
            requires
                d[0] >= 1,
                p10(0) == 1,
        ;
    } else {
        let r = d.drop_first();
        assert(r.last() == d.last());
        lemma_dval_pos(r);
        lemma_p10_pos((d.len() - 1) as nat);
        assert(d[0] as nat * p10((d.len() - 1) as nat) >= 0) by (nonlinear_arith);
    }
}

/// Split the worth of digits padded to `m` places at their first digit.
proof fn lemma_dval_split(d: Seq<u8>, m: nat)
    requires
        digits(d),
        0 < d.len() <= m,
    ensures
        dval(d) * p10((m - d.len()) as nat) == d[0] as nat * p10((m - 1) as nat) + dval(
            d.drop_first(),
        ) * p10((m - d.len()) as nat),
        dval(d.drop_first()) * p10((m - d.len()) as nat) < p10((m - 1) as nat),
{
    let r = d.drop_first();
    lemma_digits_rest(d);
    lemma_dval_below(r);
    let k = (m - d.len()) as nat;
    let e = (d.len() - 1) as nat;
    lemma_p10_add(e, k);
    assert(e + k == (m - 1) as nat);
    let pe = p10(e);
    let pk = p10(k);
    lemma_p10_pos(k);
    assert(dval(d) == d[0] as nat * pe + dval(r));
    assert((d[0] as nat * pe + dval(r)) * pk == d[0] as nat * (pe * pk) + dval(r) * pk) by (
    nonlinear_arith);
    assert(dval(r) * pk < pe * pk) by (nonlinear_arith)
        requires
            dval(r) < pe,
            pk >= 1,
    ;
}

/// Comparing digits position by position, a missing digit counting as less
/// than any, orders them as their values padded with zeros to a common
/// number of places `m`, when neither ends in a zero.
proof fn lemma_lex_is_value(a: Seq<u8>, b: Seq<u8>, m: nat)
    requires
        digits(a),
        digits(b),
        a.len() > 0 ==> a.last() != 0,
        b.len() > 0 ==> b.last() != 0,
        a.len() <= m,
        b.len() <= m,
    ensures
        lex_order(a, b) == order_of(
            (dval(a) * p10((m - a.len()) as nat)) as int,
            (dval(b) * p10((m - b.len()) as nat)) as int,
        ),
    decreases a.len(),
{
    let ka = (m - a.len()) as nat;
    let kb = (m - b.len()) as nat;
    lemma_p10_pos(ka);
    lemma_p10_pos(kb);
    if a.len() == 0 && b.len() == 0 {
        assert(dval(a) == 0 && dval(b) == 0);
        assert(dval(a) * p10(ka) == 0) by (nonlinear_arith)
            requires
                dval(a) == 0,
        ;
        assert(dval(b) * p10(kb) == 0) by (nonlinear_arith)
            requires
                dval(b) == 0,
        ;
    } else if a.len() == 0 {
        assert(dval(a) * p10(ka) == 0) by (nonlinear_arith)
            requires
                dval(a) == 0,
        ;
        lemma_dval_pos(b);
        assert(dval(b) * p10(kb) > 0) by (nonlinear_arith)
            requires
                dval(b) > 0,
                p10(kb) >= 1,
        ;
    } else if b.len() == 0 {
        assert(dval(b) * p10(kb) == 0) by (nonlinear_arith)
            requires
                dval(b) == 0,
        ;
        lemma_dval_pos(a);
        assert(dval(a) * p10(ka) > 0) by (nonlinear_arith)
            requires
                dval(a) > 0,
                p10(ka) >= 1,
        ;
    } else {
        lemma_dval_split(a, m);
        lemma_dval_split(b, m);
        let p = p10((m - 1) as nat);
        let ra = a.drop_first();
        let rb = b.drop_first();
        let xa = dval(ra) * p10(ka);
        let xb = dval(rb) * p10(kb);
        let a0 = a[0] as nat;
        let b0 = b[0] as nat;
        if a0 < b0 {
            assert(a0 * p + xa < b0 * p + xb) by (nonlinear_arith)
                requires
                    a0 < b0,
                    xa < p,
                    xb >= 0,
            ;
        } else if a0 > b0 {
            assert(a0 * p + xa > b0 * p + xb) by (nonlinear_arith)
                requires
                    a0 > b0,
                    xb < p,
                    xa >= 0,
            ;
        } else {
            lemma_digits_rest(a);
            lemma_digits_rest(b);
            if ra.len() > 0 {
                assert(ra.last() == a.last());
            }
            if rb.len() > 0 {
                assert(rb.last() == b.last());
            }
            lemma_lex_is_value(ra, rb, (m - 1) as nat);
            assert(((m - 1) as nat - ra.len()) as nat == ka);
            assert(((m - 1) as nat - rb.len()) as nat == kb);
            assert(lex_order(ra, rb) == order_of(xa as int, xb as int));
            assert(a[0] == b[0]);
            assert(lex_order(a, b) == lex_order(ra, rb));
        }
    }
}

/// Significant digits: decimal digits, the first and the last not zero.
pub open spec fn significant(d: Seq<u8>) -> bool {
    &&& digits(d)
    &&& d.len() > 0
    &&& d[0] != 0
    &&& d.last() != 0
}

/// The order of two magnitudes held as significant digits and the position
/// of their point is the order of their values, scaled by ten to the power
/// `k` so that both are whole.
proof fn lemma_mag_is_value(a: Seq<u8>, qa: int, b: Seq<u8>, qb: int, k: nat)
    requires
        significant(a),
        significant(b),
        k + qa - a.len() >= 0,
        k + qb - b.len() >= 0,
    ensures
        mag_order(a, qa, b, qb) == order_of(
            (dval(a) * p10((k + qa - a.len()) as nat)) as int,
            (dval(b) * p10((k + qb - b.len()) as nat)) as int,
        ),
{
    let ea = (k + qa - a.len()) as nat;
    let eb = (k + qb - b.len()) as nat;
    let x = dval(a) * p10(ea);
    let y = dval(b) * p10(eb);
    lemma_dval_below(a);
    lemma_dval_below(b);
    lemma_dval_above(a);
    lemma_dval_above(b);
    lemma_p10_add((a.len() - 1) as nat, ea);
    lemma_p10_add(a.len(), ea);
    lemma_p10_add((b.len() - 1) as nat, eb);
    lemma_p10_add(b.len(), eb);
    lemma_p10_pos(ea);
    lemma_p10_pos(eb);
    let ta = (k + qa) as nat;
    let tb = (k + qb) as nat;
    assert(a.len() + ea == ta);
    assert((a.len() - 1) as nat + ea == (ta - 1) as nat);
    assert(b.len() + eb == tb);
    assert((b.len() - 1) as nat + eb == (tb - 1) as nat);
    assert(p10((ta - 1) as nat) <= x < p10(ta)) by (nonlinear_arith)
        requires
            p10((a.len() - 1) as nat) <= dval(a) < p10(a.len()),
            p10((ta - 1) as nat) == p10((a.len() - 1) as nat) * p10(ea),
            p10(ta) == p10(a.len()) * p10(ea),
            p10(ea) >= 1,
            x == dval(a) * p10(ea),
    ;
    assert(p10((tb - 1) as nat) <= y < p10(tb)) by (nonlinear_arith)
        requires
            p10((b.len() - 1) as nat) <= dval(b) < p10(b.len()),
            p10((tb - 1) as nat) == p10((b.len() - 1) as nat) * p10(eb),
            p10(tb) == p10(b.len()) * p10(eb),
            p10(eb) >= 1,
            y == dval(b) * p10(eb),
    ;
    if qa < qb {
        lemma_p10_mono(ta, (tb - 1) as nat);
    } else if qa > qb {
        lemma_p10_mono(tb, (ta - 1) as nat);
    } else {
        lemma_lex_is_value(a, b, ta);
    }
}

proof fn lemma_dval_lead(d: Seq<u8>)
    ensures
        lead_zeros(d) <= d.len(),
        dval(d) == dval(d.skip(lead_zeros(d) as int)),
        d.skip(lead_zeros(d) as int).len() > 0 ==> d.skip(lead_zeros(d) as int)[0] != 0,
    decreases d.len(),
{
    if d.len() > 0 && d[0] == 0 {
        let r = d.drop_first();
        lemma_dval_lead(r);
        assert(d.skip(lead_zeros(d) as int) =~= r.skip(lead_zeros(r) as int));
        assert(dval(d) == 0 * p10((d.len() - 1) as nat) + dval(r));
    } else {
        assert(d.skip(0) =~= d);
    }
}

/// Zeros are worth nothing.
proof fn lemma_dval_zeros(z: Seq<u8>)
    requires
        forall|i: int| 0 <= i < z.len() ==> #[trigger] z[i] == 0,
    ensures
        dval(z) == 0,
    decreases z.len(),
{
    if z.len() > 0 {
        let r = z.drop_first();
        assert forall|i: int| 0 <= i < r.len() implies #[trigger] r[i] == 0 by {
            assert(r[i] == z[i + 1]);
        }
        lemma_dval_zeros(r);
        assert(z[0] == 0);
    }
}

/// Appending `t` zeros multiplies the worth by ten to the power `t`.
proof fn lemma_dval_append_zeros(x: Seq<u8>, z: Seq<u8>)
    requires
        forall|i: int| 0 <= i < z.len() ==> #[trigger] z[i] == 0,
    ensures
        dval(x + z) == dval(x) * p10(z.len()),
    decreases x.len(),
{
    if x.len() == 0 {
        assert(x + z =~= z);
        lemma_dval_zeros(z);
        assert(dval(x) == 0);
        assert(dval(x) * p10(z.len()) == 0) by (nonlinear_arith)
            requires
                dval(x) == 0,
        ;
    } else {
        let r = x.drop_first();
        lemma_dval_append_zeros(r, z);
        assert((x + z).drop_first() =~= r + z);
        assert((x + z)[0] == x[0]);
        let e = (x.len() - 1) as nat;
        lemma_p10_add(e, z.len());
        assert(((x + z).len() - 1) as nat == e + z.len());
        let pe = p10(e);
        let pz = p10(z.len());
        assert(x[0] as nat * (pe * pz) + dval(r) * pz == (x[0] as nat * pe + dval(r)) * pz) by (
        nonlinear_arith);
    }
}

proof fn lemma_dval_trail(c: Seq<u8>)
    ensures
        trail_zeros(c) <= c.len(),
        dval(c) == dval(c.take(c.len() - trail_zeros(c))) * p10(trail_zeros(c)),
        c.take(c.len() - trail_zeros(c)).len() > 0 ==> c.take(c.len() - trail_zeros(c)).last() != 0,
    decreases c.len(),
{
    let t = trail_zeros(c);
    if c.len() > 0 && c.last() == 0 {
        let r = c.drop_last();
        lemma_dval_trail(r);
        let tr = trail_zeros(r);
        assert(t == tr + 1);
        let sig = r.take(r.len() - tr);
        assert(c.take(c.len() - t) =~= sig);
        let zr = r.skip(r.len() - tr);
        let zc = c.skip(c.len() - t);
        assert(r =~= sig + zr);
        assert(c =~= sig + zc);
        assert forall|i: int| 0 <= i < zc.len() implies #[trigger] zc[i] == 0 by {
            lemma_trail_zero_at(c, c.len() - t + i);
        }
        lemma_dval_append_zeros(sig, zc);
    } else {
        assert(c.take(c.len() as int) =~= c);
        assert(p10(0) == 1);
        assert(dval(c) * p10(0) == dval(c));
    }
}

/// The digits a run of trailing zeros covers are zeros.
proof fn lemma_trail_zero_at(c: Seq<u8>, i: int)
    requires
        0 <= i,
        c.len() - trail_zeros(c) <= i < c.len(),
    ensures
        c[i] == 0,
    decreases c.len(),
{
    if c.len() > 0 && c.last() == 0 {
        let r = c.drop_last();
        assert(trail_zeros(c) == 1 + trail_zeros(r));
        if i < c.len() - 1 {
            lemma_trail_zero_at(r, i);
            assert(r[i] == c[i]);
        }
    } else {
        assert(trail_zeros(c) == 0);
    }
}

/// Reading digits `d` with the point after `point` of them keeps their
/// value: the significant digits it holds are worth as much, at the same
/// place, and only digits worth nothing read as zero.
proof fn lemma_fin_value(neg: bool, d: Seq<u8>, point: int)
    requires
        digits(d),
    ensures
        fin(neg, d, point) matches NumV::Fin(n2, sig, q) && {
            &&& (sig.len() == 0 <==> dval(d) == 0)
            &&& sig.len() == 0 ==> !n2
            &&& sig.len() > 0 ==> {
                &&& n2 == neg
                &&& significant(sig)
                &&& q - sig.len() >= point - d.len()
                &&& dval(d) == dval(sig) * p10(((q - sig.len()) - (point - d.len())) as nat)
            }
        },
{
    let lz = lead_zeros(d);
    lemma_dval_lead(d);
    let core = d.skip(lz as int);
    lemma_dval_trail(core);
    let tz = trail_zeros(core);
    let sig = core.take(core.len() - tz);
    assert(digits(sig)) by {
        assert forall|i: int| 0 <= i < sig.len() implies #[trigger] sig[i] < 10 by {
            assert(sig[i] == d[i + lz]);
        }
    }
    if sig.len() == 0 {
        assert(dval(core) == 0 * p10(tz));
    } else {
        assert(sig[0] == core[0]);
        lemma_dval_pos(sig);
        lemma_p10_pos(tz);
        assert(dval(sig) * p10(tz) > 0) by (nonlinear_arith)
            requires
                dval(sig) > 0,
                p10(tz) >= 1,
        ;
        let q = point - lz;
        assert(((q - sig.len()) - (point - d.len())) as nat == tz);
    }
}

/// The signed worth of digits `d`: negative when `neg`.
pub open spec fn signed(neg: bool, d: Seq<u8>) -> int {
    if neg {
        -(dval(d) as int)
    } else {
        dval(d) as int
    }
}

/// Numbers read from digits compare as their values: with `da` read with the
/// point after `pa` of its digits, so worth `dval(da) / 10^(|da| - pa)`, and
/// likewise `db`, the order of what they read as is the order of the two
/// values, each brought to whole numbers by the other's scale.
pub proof fn lemma_fin_order_is_value(na: bool, da: Seq<u8>, pa: int, nb: bool, db: Seq<u8>, pb: int)
    requires
        digits(da),
        digits(db),
        pa <= da.len(),
        pb <= db.len(),
    ensures
        num_order(fin(na, da, pa), fin(nb, db, pb)) == Some(
            order_of(
                signed(na, da) * p10((db.len() - pb) as nat),
                signed(nb, db) * p10((da.len() - pa) as nat),
            ),
        ),
{
    lemma_fin_value(na, da, pa);
    lemma_fin_value(nb, db, pb);
    let fa = (da.len() - pa) as nat;
    let fb = (db.len() - pb) as nat;
    lemma_p10_pos(fa);
    lemma_p10_pos(fb);
    let a = dval(da);
    let b = dval(db);
    let xa = a * p10(fb);
    let xb = b * p10(fa);
    assert(a == 0 ==> xa == 0) by (nonlinear_arith)
        requires
            xa == a * p10(fb),
    ;
    assert(b == 0 ==> xb == 0) by (nonlinear_arith)
        requires
            xb == b * p10(fa),
    ;
    assert(a > 0 ==> xa > 0) by (nonlinear_arith)
        requires
            xa == a * p10(fb),
            p10(fb) >= 1,
    ;
    assert(b > 0 ==> xb > 0) by (nonlinear_arith)
        requires
            xb == b * p10(fa),
            p10(fa) >= 1,
    ;
    assert(signed(na, da) * p10(fb) == (if na { -(xa as int) } else { xa as int })) by (nonlinear_arith)
        requires
            xa == a * p10(fb),
            signed(na, da) == (if na { -(a as int) } else { a as int }),
    ;
    assert(signed(nb, db) * p10(fa) == (if nb { -(xb as int) } else { xb as int })) by (nonlinear_arith)
        requires
            xb == b * p10(fa),
            signed(nb, db) == (if nb { -(b as int) } else { b as int }),
    ;
    if a > 0 && b > 0 {
        let (sa, qa) = match fin(na, da, pa) {
            NumV::Fin(_, s, q) => (s, q),
            _ => (seq![], 0),
        };
        let (sb, qb) = match fin(nb, db, pb) {
            NumV::Fin(_, s, q) => (s, q),
            _ => (seq![], 0),
        };
        let k = fa + fb;
        lemma_mag_is_value(sa, qa, sb, qb, k);
        lemma_mag_is_value(sb, qb, sa, qa, k);
        let ta = ((qa - sa.len()) - (pa - da.len())) as nat;
        let tb = ((qb - sb.len()) - (pb - db.len())) as nat;
        lemma_p10_add(ta, fb);
        lemma_p10_add(tb, fa);
        assert(ta + fb == (k + qa - sa.len()) as nat);
        assert(tb + fa == (k + qb - sb.len()) as nat);
        assert(xa == dval(sa) * p10(ta + fb)) by (nonlinear_arith)
            requires
                xa == a * p10(fb),
                a == dval(sa) * p10(ta),
                p10(ta + fb) == p10(ta) * p10(fb),
        ;
        assert(xb == dval(sb) * p10(tb + fa)) by (nonlinear_arith)
            requires
                xb == b * p10(fa),
                b == dval(sb) * p10(tb),
                p10(tb + fa) == p10(tb) * p10(fa),
        ;
        assert(mag_order(sa, qa, sb, qb) == order_of(xa as int, xb as int));
        assert(mag_order(sb, qb, sa, qa) == order_of(xb as int, xa as int));
    }
}

/// Decimal text: an optional `-`, the integer digits, then, when there are
/// fraction digits, a `.` and those.
pub open spec fn decimal_text(neg: bool, ints: Seq<char>, fracs: Seq<char>) -> Seq<char> {
    (if neg {
        seq!['-']
    } else {
        Seq::<char>::empty()
    }) + ints + (if fracs.len() > 0 {
        seq!['.'] + fracs
    } else {
        Seq::<char>::empty()
    })
}

proof fn lemma_digit_run(s: Seq<char>, i: int, n: nat)
    requires
        0 <= i,
        i + n <= s.len(),
        forall|k: int| i <= k < i + n ==> is_digit(#[trigger] s[k]),
        i + n == s.len() || !is_digit(s[i + n]),
    ensures
        digit_run(s, i) == n,
    decreases n,
{
    if n > 0 {
        lemma_digit_run(s, i + 1, (n - 1) as nat);
    }
}

/// Decimal text reads as its digits with the point after the integer ones.
proof fn lemma_num_of_decimal(neg: bool, ints: Seq<char>, fracs: Seq<char>)
    requires
        all_digits(ints),
        all_digits(fracs),
        ints.len() + fracs.len() > 0,
    ensures
        num_of(decimal_text(neg, ints, fracs)) == Some(
            fin(neg, vals(ints + fracs), ints.len() as int),
        ),
        digits(vals(ints + fracs)),
{
    reveal_strlit("inf");
    reveal_strlit("infinity");
    reveal_strlit("nan");
    let s = decimal_text(neg, ints, fracs);
    let dot = if fracs.len() > 0 {
        seq!['.'] + fracs
    } else {
        Seq::<char>::empty()
    };
    let b = ints + dot;
    if neg {
        assert(s =~= seq!['-'] + b);
        assert(s.drop_first() =~= b);
    } else {
        assert(s =~= b);
    }
    assert(b.len() > 0);
    assert(b[0] == '.' || is_digit(b[0])) by {
        if ints.len() > 0 {
            assert(b[0] == ints[0]);
        } else {
            assert(b[0] == dot[0]);
        }
    }
    assert(!neg ==> s.len() > 0 && s[0] != '-' && s[0] != '+');
    let lb = lower_all(b);
    assert(lb[0] == b[0]);
    assert(lb != "inf"@ && lb != "infinity"@ && lb != "nan"@) by {
        assert("inf"@[0] == 'i' && "infinity"@[0] == 'i' && "nan"@[0] == 'n');
    }
    let i1 = ints.len() as int;
    assert forall|k: int| 0 <= k < i1 implies is_digit(#[trigger] b[k]) by {
        assert(b[k] == ints[k]);
    }
    if fracs.len() > 0 {
        assert(b[i1] == '.');
        lemma_digit_run(b, 0, ints.len());
        assert forall|k: int| i1 + 1 <= k < i1 + 1 + fracs.len() implies is_digit(#[trigger] b[k]) by {
            assert(b[k] == fracs[k - i1 - 1]);
        }
        lemma_digit_run(b, i1 + 1, fracs.len());
        assert(b.subrange(0, i1) =~= ints);
        assert(b.subrange(i1 + 1, i1 + 1 + fracs.len()) =~= fracs);
        assert(b.skip(i1 + 1 + fracs.len()) =~= Seq::<char>::empty());
    } else {
        assert(b =~= ints);
        lemma_digit_run(b, 0, ints.len());
        assert(b.subrange(0, i1) =~= ints);
        assert(ints + Seq::<char>::empty() =~= ints);
        assert(b.skip(i1) =~= Seq::<char>::empty());
    }
    assert(exp_of(Seq::<char>::empty()) == Some(0int));
    let v = vals(ints + fracs);
    assert(digits(v)) by {
        assert forall|i: int| 0 <= i < v.len() implies #[trigger] v[i] < 10 by {
            let c = (ints + fracs)[i];
            assert(is_digit(c)) by {
                if i < ints.len() {
                    assert(c == ints[i]);
                } else {
                    assert(c == fracs[i - ints.len()]);
                }
            }
        }
    }
}

/// Numbers written as decimal text compare as the values they write: the
/// order of what `-`? `ia` [`.` `fa`] and `-`? `ib` [`.` `fb`] read as is the
/// order of their values, each brought to a whole number by the other's count
/// of fraction digits. So `10` is above `9`, `2.50` equals `2.5`, and `-3`
/// is below `-2.9`.
pub proof fn lemma_decimal_order_is_value(
    na: bool,
    ia: Seq<char>,
    fa: Seq<char>,
    nb: bool,
    ib: Seq<char>,
    fb: Seq<char>,
)
    requires
        all_digits(ia),
        all_digits(fa),
        ia.len() + fa.len() > 0,
        all_digits(ib),
        all_digits(fb),
        ib.len() + fb.len() > 0,
    ensures
        num_of(decimal_text(na, ia, fa)) matches Some(x) && num_of(decimal_text(nb, ib, fb)) matches Some(
            y,
        ) && num_order(x, y) == Some(
            order_of(
                signed(na, vals(ia + fa)) * p10(fb.len()),
                signed(nb, vals(ib + fb)) * p10(fa.len()),
            ),
        ),
{
    lemma_num_of_decimal(na, ia, fa);
    lemma_num_of_decimal(nb, ib, fb);
    lemma_fin_order_is_value(
        na,
        vals(ia + fa),
        ia.len() as int,
        nb,
        vals(ib + fb),
        ib.len() as int,
    );
    assert((vals(ia + fa).len() - ia.len()) as nat == fa.len());
    assert((vals(ib + fb).len() - ib.len()) as nat == fb.len());
}

/// A numeric condition on decimal text holds exactly when the values stand
/// in the operator's relation: `n>9` holds of `10`, and `n<=2.5` of `2.50`.
pub proof fn lemma_compare_is_value(
    na: bool,
    ia: Seq<char>,
    fa: Seq<char>,
    op: NumOp,
    nb: bool,
    ib: Seq<char>,
    fb: Seq<char>,
)
    requires
        all_digits(ia),
        all_digits(fa),
        ia.len() + fa.len() > 0,
        all_digits(ib),
        all_digits(fb),
        ib.len() + fb.len() > 0,
    ensures
        num_holds(decimal_text(na, ia, fa), op, decimal_text(nb, ib, fb)) == op_holds(
            op,
            order_of(
                signed(na, vals(ia + fa)) * p10(fb.len()),
                signed(nb, vals(ib + fb)) * p10(fa.len()),
            ),
        ),
{
    lemma_decimal_order_is_value(na, ia, fa, nb, ib, fb);
}

} // verus!
