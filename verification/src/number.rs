//! Numeric reading of scalar text, for numeric-aware condition matching.
//!
//! A number is read with the grammar of Rust's float literals as
//! `str::parse::<f64>` accepts them: an optional sign, then `inf`,
//! `infinity` or `nan` (any case), or digits with an optional `.` and an
//! optional exponent. Finite numbers are compared by their exact decimal value,
//! held in a canonical form: the significant digits with no leading or trailing
//! zero, and the position of the decimal point.
use crate::text::{all_digits, digit_val, digits_value, is_digit, lower_all, parse_unsigned};
use vstd::prelude::*;

verus! {

/// Largest exponent magnitude held exactly. Beyond it a number overflows to
/// an infinity or underflows to zero, as a float does.
pub const EXP_LIMIT: u64 = 1_000_000_000_000_000u64;

/// A number read from text: value `0.d1 d2 d3 ... * 10^point` for `Fin`.
pub enum NumV {
    /// Not a number; equal to nothing, ordered with nothing.
    NaN,
    /// An infinity; `true` for negative.
    Inf(bool),
    /// A finite number: sign, significant digits (none for zero), point position.
    Fin(bool, Seq<u8>, int),
}

/// Count of consecutive digits of `s` starting at `i`.
pub open spec fn digit_run(s: Seq<char>, i: int) -> nat
    decreases s.len() - i,
{
    if 0 <= i < s.len() && is_digit(s[i]) {
        1 + digit_run(s, i + 1)
    } else {
        0
    }
}

/// The digit values of a string of digits.
pub open spec fn vals(s: Seq<char>) -> Seq<u8> {
    s.map_values(|c: char| digit_val(c) as u8)
}

/// Count of leading zero digits.
pub open spec fn lead_zeros(d: Seq<u8>) -> nat
    decreases d.len(),
{
    if d.len() > 0 && d[0] == 0 {
        1 + lead_zeros(d.drop_first())
    } else {
        0
    }
}

/// Count of trailing zero digits.
pub open spec fn trail_zeros(d: Seq<u8>) -> nat
    decreases d.len(),
{
    if d.len() > 0 && d.last() == 0 {
        1 + trail_zeros(d.drop_last())
    } else {
        0
    }
}

/// The canonical finite number with digits `d` and the point after `point`
/// of them.
pub open spec fn fin(neg: bool, d: Seq<u8>, point: int) -> NumV {
    let lz = lead_zeros(d);
    let core = d.skip(lz as int);
    let sig = core.take(core.len() - trail_zeros(core));
    if sig.len() == 0 {
        NumV::Fin(false, seq![], 0)
    } else {
        NumV::Fin(neg, sig, point - lz)
    }
}

/// The value of an exponent part (`e12`, `E-3`, or nothing).
pub open spec fn exp_of(r: Seq<char>) -> Option<int> {
    if r.len() == 0 {
        Some(0)
    } else if r[0] == 'e' || r[0] == 'E' {
        let t = r.drop_first();
        let eneg = t.len() > 0 && t[0] == '-';
        let ds = if t.len() > 0 && (t[0] == '+' || t[0] == '-') {
            t.drop_first()
        } else {
            t
        };
        if ds.len() > 0 && all_digits(ds) && digits_value(ds) <= EXP_LIMIT {
            Some(
                if eneg {
                    -digits_value(ds)
                } else {
                    digits_value(ds) as int
                },
            )
        } else {
            None
        }
    } else {
        None
    }
}

/// The sign of an exponent part whose magnitude is beyond [`EXP_LIMIT`]
/// (`true` for negative), if `r` is one.
pub open spec fn big_exp(r: Seq<char>) -> Option<bool> {
    if r.len() > 0 && (r[0] == 'e' || r[0] == 'E') {
        let t = r.drop_first();
        let eneg = t.len() > 0 && t[0] == '-';
        let ds = if t.len() > 0 && (t[0] == '+' || t[0] == '-') {
            t.drop_first()
        } else {
            t
        };
        if ds.len() > 0 && all_digits(ds) && digits_value(ds) > EXP_LIMIT {
            Some(eneg)
        } else {
            None
        }
    } else {
        None
    }
}

/// The canonical zero.
pub open spec fn zero() -> NumV {
    NumV::Fin(false, seq![], 0)
}

/// The number `s` reads as, if it is one. An exponent beyond [`EXP_LIMIT`]
/// underflows to zero when negative, and overflows to an infinity of the
/// number's sign when positive, unless every digit is zero.
pub open spec fn num_of(s: Seq<char>) -> Option<NumV> {
    let neg = s.len() > 0 && s[0] == '-';
    let b = if s.len() > 0 && (s[0] == '+' || s[0] == '-') {
        s.drop_first()
    } else {
        s
    };
    let lb = lower_all(b);
    if lb == "inf"@ || lb == "infinity"@ {
        Some(NumV::Inf(neg))
    } else if lb == "nan"@ {
        Some(NumV::NaN)
    } else {
        let i1 = digit_run(b, 0) as int;
        let has_dot = i1 < b.len() && b[i1] == '.';
        let i2 = if has_dot {
            i1 + 1 + digit_run(b, i1 + 1)
        } else {
            i1
        };
        let ints = b.subrange(0, i1);
        let fracs = if has_dot {
            b.subrange(i1 + 1, i2)
        } else {
            Seq::empty()
        };
        if ints.len() + fracs.len() == 0 {
            None
        } else {
            match exp_of(b.skip(i2)) {
                Some(e) => Some(fin(neg, vals(ints + fracs), ints.len() + e)),
                None => match big_exp(b.skip(i2)) {
                    Some(true) => Some(zero()),
                    Some(false) => if fin(neg, vals(ints + fracs), 0) == zero() {
                        Some(zero())
                    } else {
                        Some(NumV::Inf(neg))
                    },
                    None => None,
                },
            }
        }
    }
}

/// Lexicographic order of digit strings: -1, 0, or 1.
pub open spec fn lex_order(a: Seq<u8>, b: Seq<u8>) -> int
    decreases a.len(),
{
    if a.len() == 0 {
        if b.len() == 0 {
            0
        } else {
            -1
        }
    } else if b.len() == 0 {
        1
    } else if a[0] < b[0] {
        -1
    } else if a[0] > b[0] {
        1
    } else {
        lex_order(a.drop_first(), b.drop_first())
    }
}

/// Order of two non-negative canonical magnitudes.
pub open spec fn mag_order(da: Seq<u8>, pa: int, db: Seq<u8>, pb: int) -> int {
    if da.len() == 0 && db.len() == 0 {
        0
    } else if da.len() == 0 {
        -1
    } else if db.len() == 0 {
        1
    } else if pa < pb {
        -1
    } else if pa > pb {
        1
    } else {
        lex_order(da, db)
    }
}

/// The sign of a finite canonical number: -1, 0, or 1.
pub open spec fn fin_sign(neg: bool, d: Seq<u8>) -> int {
    if d.len() == 0 {
        0
    } else if neg {
        -1
    } else {
        1
    }
}

/// The order of two numbers (-1, 0, 1), or `None` when either is NaN.
pub open spec fn num_order(a: NumV, b: NumV) -> Option<int> {
    match (a, b) {
        (NumV::NaN, _) => None,
        (_, NumV::NaN) => None,
        (NumV::Inf(x), NumV::Inf(y)) => Some(
            if x == y {
                0
            } else if x {
                -1
            } else {
                1
            },
        ),
        (NumV::Inf(x), _) => Some(if x { -1 } else { 1 }),
        (_, NumV::Inf(y)) => Some(if y { 1 } else { -1 }),
        (NumV::Fin(na, da, pa), NumV::Fin(nb, db, pb)) => {
            let sa = fin_sign(na, da);
            let sb = fin_sign(nb, db);
            if sa < sb {
                Some(-1)
            } else if sa > sb {
                Some(1)
            } else if sa == 0 {
                Some(0)
            } else if sa > 0 {
                Some(mag_order(da, pa, db, pb))
            } else {
                Some(mag_order(db, pb, da, pa))
            }
        },
    }
}

proof fn lemma_lex_order_flips(a: Seq<u8>, b: Seq<u8>)
    ensures
        lex_order(b, a) == -lex_order(a, b),
    decreases a.len(),
{
    if a.len() > 0 && b.len() > 0 && a[0] == b[0] {
        lemma_lex_order_flips(a.drop_first(), b.drop_first());
    }
}

/// Numbers are ordered consistently both ways: `a` stands to `b` as `b`
/// stands to `a` reversed, so `x > y` exactly when `y < x`, and equality by
/// value is symmetric. NaN is ordered with nothing, either way.
pub proof fn lemma_num_order_flips(a: NumV, b: NumV)
    ensures
        num_order(b, a) == match num_order(a, b) {
            Some(o) => Some(-o),
            None => None,
        },
{
    match (a, b) {
        (NumV::Fin(na, da, pa), NumV::Fin(nb, db, pb)) => {
            lemma_lex_order_flips(da, db);
        },
        _ => {},
    }
}

/// A number read from text.
pub enum Num {
    /// Not a number.
    NaN,
    /// An infinity; `true` for negative.
    Inf(bool),
    /// A finite number in canonical form.
    Fin {
        /// Negative.
        neg: bool,
        /// Significant digits, no leading or trailing zero.
        digits: Vec<u8>,
        /// Position of the decimal point.
        point: i128,
    },
}

impl View for Num {
    type V = NumV;

    open spec fn view(&self) -> NumV {
        match self {
            Num::NaN => NumV::NaN,
            Num::Inf(n) => NumV::Inf(*n),
            Num::Fin { neg, digits, point } => NumV::Fin(*neg, digits@, *point as int),
        }
    }
}

fn run_of_digits(s: &[char], i: usize) -> (j: usize)
    requires
        i <= s@.len(),
    ensures
        i <= j <= s@.len(),
        j - i == digit_run(s@, i as int),
{
    let mut j = i;
    while j < s.len() && '0' <= s[j] && s[j] <= '9'
        invariant
            i <= j <= s@.len(),
            digit_run(s@, i as int) == (j - i) + digit_run(s@, j as int),
        decreases s@.len() - j,
    {
        j = j + 1;
    }
    j
}

fn lower_is(s: &[char], from: usize, word: &str) -> (r: bool)
    requires
        from <= s@.len(),
    ensures
        r == (lower_all(s@.skip(from as int)) == word@),
{
    let l = crate::text::lower_chars(&s[from..s.len()]);
    assert(s@.skip(from as int) =~= s@.subrange(from as int, s@.len() as int));
    crate::key::eq_str(&l, word)
}

fn canonical(neg: bool, d: Vec<u8>, point: i128) -> (n: Num)
    requires
        d@.len() <= usize::MAX,
        -0x1_0000_0000_0000_0000_0000 <= point <= 0x1_0000_0000_0000_0000_0000,
    ensures
        n@ == fin(neg, d@, point as int),
{
    let mut lz: usize = 0;
    assert(d@.skip(0) =~= d@);
    while lz < d.len() && d[lz] == 0
        invariant
            lz <= d@.len(),
            lead_zeros(d@) == lz + lead_zeros(d@.skip(lz as int)),
        decreases d@.len() - lz,
    {
        assert(d@.skip(lz as int).drop_first() =~= d@.skip(lz + 1));
        lz = lz + 1;
    }
    assert(lead_zeros(d@.skip(lz as int)) == 0);
    let ghost core = d@.skip(lz as int);
    let mut end: usize = d.len();
    while end > lz && d[end - 1] == 0
        invariant
            lz <= end <= d@.len(),
            core == d@.skip(lz as int),
            trail_zeros(core) == (d@.len() - end) + trail_zeros(d@.subrange(lz as int, end as int)),
        decreases end,
    {
        assert(d@.subrange(lz as int, end as int).drop_last() =~= d@.subrange(lz as int, end - 1));
        end = end - 1;
    }
    assert(core =~= d@.subrange(lz as int, d@.len() as int));
    assert(trail_zeros(d@.subrange(lz as int, end as int)) == 0);
    assert(core.take(core.len() - trail_zeros(core)) =~= d@.subrange(lz as int, end as int));
    if end == lz {
        Num::Fin { neg: false, digits: Vec::new(), point: 0 }
    } else {
        let mut sig: Vec<u8> = Vec::new();
        let mut k = lz;
        while k < end
            invariant
                lz <= k <= end <= d@.len(),
                sig@ =~= d@.subrange(lz as int, k as int),
            decreases end - k,
        {
            sig.push(d[k]);
            k = k + 1;
        }
        Num::Fin { neg, digits: sig, point: point - lz as i128 }
    }
}

fn exponent(s: &[char], from: usize) -> (r: Option<i128>)
    requires
        from <= s@.len(),
    ensures
        r matches Some(e) ==> exp_of(s@.skip(from as int)) == Some(e as int),
        r is None ==> exp_of(s@.skip(from as int)) is None,
        r matches Some(e) ==> -(EXP_LIMIT as int) <= e <= EXP_LIMIT,
{
    let ghost r = s@.skip(from as int);
    if from == s.len() {
        return Some(0);
    }
    if s[from] != 'e' && s[from] != 'E' {
        return None;
    }
    let mut k = from + 1;
    let ghost t = r.drop_first();
    assert(t =~= s@.skip(k as int));
    let eneg = k < s.len() && s[k] == '-';
    if k < s.len() && (s[k] == '+' || s[k] == '-') {
        k = k + 1;
    }
    let ghost ds = if t.len() > 0 && (t[0] == '+' || t[0] == '-') { t.drop_first() } else { t };
    assert(ds =~= s@.skip(k as int));
    assert(s@.skip(k as int) =~= s@.subrange(k as int, s@.len() as int));
    match parse_unsigned(&s[k..s.len()], EXP_LIMIT) {
        Some(v) => {
            proof {
                let tail = s@.skip(k as int);
                if tail.len() > 0 && tail[0] == '+' {
                    // A second sign is not part of the grammar.
                    assert(!crate::text::is_digit(tail[0]));
                }
            }
            if k < s.len() && s[k] == '+' {
                return None;
            }
            assert(crate::text::unsigned_value(ds) == Some(v as nat));
            Some(if eneg { -(v as i128) } else { v as i128 })
        },
        None => {
            proof {
                let tail = s@.skip(k as int);
                if !(tail.len() > 0 && tail[0] == '+') {
                    assert(crate::text::unsigned_value(tail) == (if tail.len() > 0 && all_digits(tail) { Some(digits_value(tail)) } else { None }));
                }
            }
            if k < s.len() && s[k] == '+' {
                return None;
            }
            None
        },
    }
}

fn huge_exponent(s: &[char], from: usize) -> (r: Option<bool>)
    requires
        from <= s@.len(),
    ensures
        r == big_exp(s@.skip(from as int)),
{
    let ghost r = s@.skip(from as int);
    if from == s.len() {
        return None;
    }
    if s[from] != 'e' && s[from] != 'E' {
        return None;
    }
    let mut k = from + 1;
    let ghost t = r.drop_first();
    assert(t =~= s@.skip(k as int));
    let eneg = k < s.len() && s[k] == '-';
    if k < s.len() && (s[k] == '+' || s[k] == '-') {
        k = k + 1;
    }
    let ghost ds = if t.len() > 0 && (t[0] == '+' || t[0] == '-') { t.drop_first() } else { t };
    assert(ds =~= s@.skip(k as int));
    if k == s.len() {
        return None;
    }
    assert(big_exp(s@.skip(from as int)) == (if all_digits(ds) && digits_value(ds) > EXP_LIMIT {
        Some(eneg)
    } else {
        None
    }));
    let mut j = k;
    while j < s.len()
        invariant
            k <= j <= s@.len(),
            k < s@.len(),
            ds == s@.skip(k as int),
            big_exp(s@.skip(from as int)) == (if all_digits(ds) && digits_value(ds) > EXP_LIMIT {
                Some(eneg)
            } else {
                None
            }),
            forall|m: int| k <= m < j ==> crate::text::is_digit(#[trigger] s@[m]),
        decreases s@.len() - j,
    {
        if !('0' <= s[j] && s[j] <= '9') {
            assert(ds[j - k] == s@[j as int]);
            assert(!crate::text::is_digit(ds[j - k]));
            return None;
        }
        j = j + 1;
    }
    assert(all_digits(ds)) by {
        assert forall|m: int| 0 <= m < ds.len() implies crate::text::is_digit(#[trigger] ds[m]) by {
            assert(ds[m] == s@[m + k]);
        }
    }
    assert(s@.skip(k as int) =~= s@.subrange(k as int, s@.len() as int));
    assert(ds[0] != '+');
    match parse_unsigned(&s[k..s.len()], EXP_LIMIT) {
        Some(_) => None,
        None => Some(eneg),
    }
}

/// Read `s` as a number, if it is one.
#[verifier::rlimit(50)]
pub fn parse_num(s: &[char]) -> (r: Option<Num>)
    ensures
        r matches Some(n) ==> num_of(s@) == Some(n@),
        r is None ==> num_of(s@) is None,
{
    let neg = s.len() > 0 && s[0] == '-';
    let start: usize = if s.len() > 0 && (s[0] == '+' || s[0] == '-') { 1 } else { 0 };
    let b = &s[start..s.len()];
    assert(b@ =~= s@.skip(start as int));
    assert(b@ =~= (if s@.len() > 0 && (s@[0] == '+' || s@[0] == '-') { s@.drop_first() } else { s@ }));
    if lower_is(b, 0, "inf") || lower_is(b, 0, "infinity") {
        assert(b@.skip(0) =~= b@);
        return Some(Num::Inf(neg));
    }
    if lower_is(b, 0, "nan") {
        assert(b@.skip(0) =~= b@);
        return Some(Num::NaN);
    }
    assert(b@.skip(0) =~= b@);
    let i1 = run_of_digits(b, 0);
    let has_dot = i1 < b.len() && b[i1] == '.';
    let i2 = if has_dot { run_of_digits(b, i1 + 1) } else { i1 };
    if i1 == 0 && i2 <= i1 + 1 {
        return None;
    }
    let mut d: Vec<u8> = Vec::new();
    let mut k: usize = 0;
    while k < i1
        invariant
            k <= i1 <= b@.len(),
            digit_run(b@, 0) == i1,
            d@ =~= vals(b@.subrange(0, k as int)),
        decreases i1 - k,
    {
        proof { lemma_run_digits(b@, 0, k as int); }
        d.push((b[k] as u32 - 48) as u8);
        k = k + 1;
    }
    if has_dot {
        let mut k = i1 + 1;
        while k < i2
            invariant
                i1 + 1 <= k <= i2 <= b@.len(),
                i1 < b@.len(),
                i2 - (i1 + 1) == digit_run(b@, i1 + 1),
                d@ =~= vals(b@.subrange(0, i1 as int) + b@.subrange(i1 + 1, k as int)),
            decreases i2 - k,
        {
            proof { lemma_run_digits(b@, i1 + 1, k as int); }
            d.push((b[k] as u32 - 48) as u8);
            k = k + 1;
        }
    } else {
        assert(b@.subrange(0, i1 as int) + Seq::empty() =~= b@.subrange(0, i1 as int));
    }
    match exponent(b, i2) {
        Some(e) => Some(canonical(neg, d, i1 as i128 + e)),
        None => match huge_exponent(b, i2) {
            Some(true) => Some(Num::Fin { neg: false, digits: Vec::new(), point: 0 }),
            Some(false) => {
                let z = canonical(neg, d, 0);
                match z {
                    Num::Fin { digits, .. } => {
                        if digits.len() == 0 {
                            Some(Num::Fin { neg: false, digits: Vec::new(), point: 0 })
                        } else {
                            Some(Num::Inf(neg))
                        }
                    },
                    _ => Some(Num::Inf(neg)),
                }
            },
            None => None,
        },
    }
}

/// Every index inside a run of digits holds a digit.
proof fn lemma_run_digits(s: Seq<char>, i: int, k: int)
    requires
        0 <= i <= k < i + digit_run(s, i),
    ensures
        0 <= k < s.len(),
        is_digit(s[k]),
    decreases k - i,
{
    if k > i {
        lemma_run_digits(s, i + 1, k);
    }
}

fn lex(a: &[u8], b: &[u8]) -> (r: i8)
    ensures
        r as int == lex_order(a@, b@),
{
    let mut i: usize = 0;
    assert(a@.skip(0) =~= a@);
    assert(b@.skip(0) =~= b@);
    while i < a.len() && i < b.len() && a[i] == b[i]
        invariant
            i <= a@.len(),
            i <= b@.len(),
            lex_order(a@, b@) == lex_order(a@.skip(i as int), b@.skip(i as int)),
        decreases a@.len() - i,
    {
        assert(a@.skip(i as int).drop_first() =~= a@.skip(i + 1));
        assert(b@.skip(i as int).drop_first() =~= b@.skip(i + 1));
        i = i + 1;
    }
    if i == a.len() {
        if i == b.len() { 0 } else { -1 }
    } else if i == b.len() {
        1
    } else if a[i] < b[i] {
        -1
    } else {
        1
    }
}

fn mag(da: &[u8], pa: i128, db: &[u8], pb: i128) -> (r: i8)
    ensures
        r as int == mag_order(da@, pa as int, db@, pb as int),
{
    if da.len() == 0 && db.len() == 0 {
        0
    } else if da.len() == 0 {
        -1
    } else if db.len() == 0 {
        1
    } else if pa < pb {
        -1
    } else if pa > pb {
        1
    } else {
        lex(da, db)
    }
}

/// The order of two numbers (-1, 0, 1), or `None` when either is NaN.
pub fn compare_nums(a: &Num, b: &Num) -> (r: Option<i8>)
    ensures
        r matches Some(x) ==> num_order(a@, b@) == Some(x as int),
        r is None ==> num_order(a@, b@) is None,
{
    match (a, b) {
        (Num::NaN, _) => None,
        (_, Num::NaN) => None,
        (Num::Inf(x), Num::Inf(y)) => Some(if *x == *y { 0 } else if *x { -1 } else { 1 }),
        (Num::Inf(x), _) => Some(if *x { -1 } else { 1 }),
        (_, Num::Inf(y)) => Some(if *y { 1 } else { -1 }),
        (Num::Fin { neg: na, digits: da, point: pa }, Num::Fin { neg: nb, digits: db, point: pb }) => {
            let sa: i8 = if da.len() == 0 { 0 } else if *na { -1 } else { 1 };
            let sb: i8 = if db.len() == 0 { 0 } else if *nb { -1 } else { 1 };
            if sa < sb {
                Some(-1)
            } else if sa > sb {
                Some(1)
            } else if sa == 0 {
                Some(0)
            } else if sa > 0 {
                Some(mag(da, *pa, db, *pb))
            } else {
                Some(mag(db, *pb, da, *pa))
            }
        },
    }
}

} // verus!
