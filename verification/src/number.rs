//! Numeric literals of the query language.
//!
//! A bare word in a query is a number when it has the shape that
//! `f64::from_str` accepts: an optional sign, then `inf`, `infinity` or
//! `nan` (any case), or decimal digits with an optional fraction and an
//! optional exponent. The library keeps such a number as its canonical
//! decimal text — the text `f64`'s `Display` writes for it: no exponent,
//! no leading `+`, no superfluous zeros, `inf` / `-inf` / `NaN` for the
//! specials. Integral checks (for `DEPTH`, `MAX HOPS`) are made on the
//! exact decimal value, saturating at `u32::MAX` like an `as u32` cast.

use vstd::prelude::*;
use crate::text::{spec_is_digit, is_digit, seq_lower, chars_of, lower_vec, is_lit, decimal};

verus! {

/// Shape of a numeric literal once the sign is removed.
pub enum LitShape {
    Inf,
    NaN,
    Finite { int_digits: Seq<char>, frac_digits: Seq<char>, exp: int },
}

/// First index `>= i` that is not an ASCII digit (or the end).
pub open spec fn scan_digits(s: Seq<char>, i: int) -> int
    decreases s.len() - i,
{
    if i < 0 || i >= s.len() || !spec_is_digit(s[i]) {
        i
    } else {
        scan_digits(s, i + 1)
    }
}

pub open spec fn digit_value(c: char) -> nat {
    ((c as u32) - ('0' as u32)) as nat
}

/// Value of a run of decimal digits.
pub open spec fn digits_value(d: Seq<char>) -> nat
    decreases d.len(),
{
    if d.len() == 0 {
        0
    } else {
        digits_value(d.drop_last()) * 10 + digit_value(d.last())
    }
}

pub open spec fn all_digits(d: Seq<char>) -> bool {
    forall|k: int| 0 <= k < d.len() ==> spec_is_digit(#[trigger] d[k])
}

/// The sign and the unsigned remainder of a literal.
pub open spec fn split_sign(raw: Seq<char>) -> (bool, Seq<char>) {
    if raw.len() > 0 && (raw[0] == '+' || raw[0] == '-') {
        (raw[0] == '-', raw.skip(1))
    } else {
        (false, raw)
    }
}

/// The unsigned finite literal `digits [. digits] [(e|E) [sign] digits]`.
pub open spec fn finite_shape(r: Seq<char>) -> Option<LitShape> {
    let i1 = scan_digits(r, 0);
    let has_point = i1 < r.len() && r[i1] == '.';
    let i2 = if has_point {
        scan_digits(r, i1 + 1)
    } else {
        i1
    };
    let int_d = r.subrange(0, i1);
    let frac_d = if has_point {
        r.subrange(i1 + 1, i2)
    } else {
        Seq::<char>::empty()
    };
    if int_d.len() + frac_d.len() == 0 {
        None
    } else if i2 == r.len() {
        Some(LitShape::Finite { int_digits: int_d, frac_digits: frac_d, exp: 0 })
    } else if r[i2] == 'e' || r[i2] == 'E' {
        let j = i2 + 1;
        let eneg = j < r.len() && r[j] == '-';
        let j2 = if j < r.len() && (r[j] == '+' || r[j] == '-') {
            j + 1
        } else {
            j
        };
        let m = scan_digits(r, j2);
        if m > j2 && m == r.len() {
            let v = digits_value(r.subrange(j2, m)) as int;
            Some(
                LitShape::Finite {
                    int_digits: int_d,
                    frac_digits: frac_d,
                    exp: if eneg {
                        -v
                    } else {
                        v
                    },
                },
            )
        } else {
            None
        }
    } else {
        None
    }
}

/// Sign and shape of `raw` when `f64::from_str` accepts it.
pub open spec fn lit_parts(raw: Seq<char>) -> Option<(bool, LitShape)> {
    let (neg, r) = split_sign(raw);
    let low = seq_lower(r);
    if low == "inf"@ || low == "infinity"@ {
        Some((neg, LitShape::Inf))
    } else if low == "nan"@ {
        Some((neg, LitShape::NaN))
    } else {
        match finite_shape(r) {
            Some(sh) => Some((neg, sh)),
            None => None,
        }
    }
}

/// `raw` parses as an `f64`.
pub open spec fn is_number_literal(raw: Seq<char>) -> bool {
    lit_parts(raw) is Some
}

/// Number of leading `'0'`s.
pub open spec fn leading_zeros(d: Seq<char>) -> nat
    decreases d.len(),
{
    if d.len() > 0 && d[0] == '0' {
        1 + leading_zeros(d.drop_first())
    } else {
        0
    }
}

/// Number of trailing `'0'`s.
pub open spec fn trailing_zeros(d: Seq<char>) -> nat
    decreases d.len(),
{
    if d.len() > 0 && d.last() == '0' {
        1 + trailing_zeros(d.drop_last())
    } else {
        0
    }
}

/// Significant digits: no leading and no trailing zeros.
pub open spec fn significant(int_d: Seq<char>, frac_d: Seq<char>) -> Seq<char> {
    let d = int_d + frac_d;
    let d1 = d.skip(leading_zeros(d) as int);
    d1.take(d1.len() - trailing_zeros(d1))
}

/// Position of the decimal point relative to the first significant digit:
/// the value lies in `[10^(p-1), 10^p)`.
pub open spec fn point_pos(int_d: Seq<char>, frac_d: Seq<char>, exp: int) -> int {
    int_d.len() + exp - leading_zeros(int_d + frac_d)
}

pub open spec fn zeros(n: int) -> Seq<char> {
    Seq::new(if n > 0 {
        n as nat
    } else {
        0
    }, |i: int| '0')
}

pub open spec fn sign_text(neg: bool) -> Seq<char> {
    if neg {
        seq!['-']
    } else {
        Seq::<char>::empty()
    }
}

/// Largest point position still finite as an `f64`.
pub open spec fn max_point() -> int {
    309
}

/// Smallest point position not flushed to zero.
pub open spec fn min_point() -> int {
    -323
}

/// The canonical text of a finite literal.
pub open spec fn finite_text(neg: bool, int_d: Seq<char>, frac_d: Seq<char>, exp: int) -> Seq<
    char,
> {
    let t = significant(int_d, frac_d);
    let p = point_pos(int_d, frac_d, exp);
    let k = t.len() as int;
    if t.len() == 0 || p < min_point() {
        sign_text(neg) + seq!['0']
    } else if p > max_point() {
        sign_text(neg) + "inf"@
    } else if p <= 0 {
        sign_text(neg) + seq!['0', '.'] + zeros(-p) + t
    } else if p >= k {
        sign_text(neg) + t + zeros(p - k)
    } else {
        sign_text(neg) + t.take(p) + seq!['.'] + t.skip(p)
    }
}

/// The text `f64`'s `Display` writes for the literal `raw`.
pub open spec fn number_text(raw: Seq<char>) -> Seq<char> {
    match lit_parts(raw) {
        Some((neg, LitShape::Inf)) => sign_text(neg) + "inf"@,
        Some((_, LitShape::NaN)) => "NaN"@,
        Some((neg, LitShape::Finite { int_digits, frac_digits, exp })) => finite_text(
            neg,
            int_digits,
            frac_digits,
            exp,
        ),
        None => raw,
    }
}

pub open spec fn pow10(n: nat) -> nat
    decreases n,
{
    if n == 0 {
        1
    } else {
        10 * pow10((n - 1) as nat)
    }
}

pub open spec fn saturate_u32(v: nat) -> u32 {
    if v > u32::MAX {
        u32::MAX
    } else {
        v as u32
    }
}

/// `Some(n as u32)` when the literal is a non-negative whole number
/// (`-0` counts as zero), `None` otherwise.
pub open spec fn number_u32(raw: Seq<char>) -> Option<u32> {
    match lit_parts(raw) {
        Some((neg, LitShape::Finite { int_digits, frac_digits, exp })) => finite_u32(
            neg,
            int_digits,
            frac_digits,
            exp,
        ),
        _ => None,
    }
}

// ---------------------------------------------------------------------------
// Lemmas
// ---------------------------------------------------------------------------

proof fn lemma_scan_digits(s: Seq<char>, i: int, j: int)
    requires
        0 <= i <= j <= s.len(),
        forall|k: int| i <= k < j ==> spec_is_digit(#[trigger] s[k]),
        j == s.len() || !spec_is_digit(s[j]),
    ensures
        scan_digits(s, i) == j,
    decreases j - i,
{
    if i < j {
        lemma_scan_digits(s, i + 1, j);
    }
}

proof fn lemma_pow10_pos(n: nat)
    ensures
        pow10(n) >= 1,
    decreases n,
{
    if n > 0 {
        lemma_pow10_pos((n - 1) as nat);
    }
}

proof fn lemma_pow10_add(a: nat, b: nat)
    ensures
        pow10(a + b) == pow10(a) * pow10(b),
    decreases b,
{
    if b > 0 {
        let b1 = (b - 1) as nat;
        lemma_pow10_add(a, b1);
        assert((a + b - 1) as nat == a + b1);
        assert(pow10(a + b) == 10 * pow10(a + b1));
        assert(pow10(b) == 10 * pow10(b1));
        let x = pow10(a);
        let y = pow10(b1);
        assert(x * (10 * y) == 10 * (x * y)) by (nonlinear_arith);
    } else {
        assert(pow10(0) == 1);
        assert(a + b == a);
        assert(pow10(a) * 1 == pow10(a));
    }
}

/// A digit run whose first digit is not zero is at least `10^(len-1)`.
proof fn lemma_digits_lower(d: Seq<char>)
    requires
        d.len() > 0,
        all_digits(d),
        d[0] != '0',
    ensures
        digits_value(d) >= pow10((d.len() - 1) as nat),
    decreases d.len(),
{
    if d.len() == 1 {
        assert(d.drop_last().len() == 0);
        assert(digits_value(d.drop_last()) == 0);
        assert(pow10(0) == 1);
    } else {
        let e = d.drop_last();
        assert(e[0] == d[0]);
        assert(all_digits(e)) by {
            assert forall|k: int| 0 <= k < e.len() implies spec_is_digit(#[trigger] e[k]) by {
                assert(e[k] == d[k]);
            }
        }
        lemma_digits_lower(e);
        let n = (d.len() - 2) as nat;
        assert(pow10((d.len() - 1) as nat) == 10 * pow10(n));
        assert(digits_value(d) == digits_value(e) * 10 + digit_value(d.last()));
        assert(digits_value(e) >= pow10(n));
        assert(digits_value(e) * 10 >= pow10(n) * 10) by (nonlinear_arith)
            requires
                digits_value(e) >= pow10(n),
        ;
    }
}

/// A digit run of length `n` is below `10^n`.
proof fn lemma_digits_upper(d: Seq<char>)
    requires
        all_digits(d),
    ensures
        digits_value(d) < pow10(d.len()),
    decreases d.len(),
{
    if d.len() > 0 {
        let e = d.drop_last();
        assert(all_digits(e)) by {
            assert forall|k: int| 0 <= k < e.len() implies spec_is_digit(#[trigger] e[k]) by {
                assert(e[k] == d[k]);
            }
        }
        lemma_digits_upper(e);
        assert(spec_is_digit(d[d.len() - 1]));
        assert(digit_value(d.last()) <= 9);
        assert(pow10(d.len()) == 10 * pow10(e.len()));
        assert(digits_value(e) * 10 + digit_value(d.last()) < 10 * pow10(e.len()))
            by (nonlinear_arith)
            requires
                digits_value(e) + 1 <= pow10(e.len()),
                digit_value(d.last()) <= 9,
        ;
    }
}

// ---------------------------------------------------------------------------
// Executable classification
// ---------------------------------------------------------------------------

/// First index `>= i` of `s` that is not an ASCII digit.
pub fn skip_digits(s: &Vec<char>, i: usize) -> (r: usize)
    requires
        i <= s.len(),
    ensures
        r == scan_digits(s@, i as int),
        i <= r <= s.len(),
{
    let mut j = i;
    while j < s.len() && is_digit(s[j])
        invariant
            i <= j <= s.len(),
            forall|k: int| i <= k < j ==> spec_is_digit(#[trigger] s@[k]),
        decreases s.len() - j,
    {
        j = j + 1;
    }
    proof {
        lemma_scan_digits(s@, i as int, j as int);
    }
    j
}

/// Cap applied to exponents while reading them; any larger exponent
/// classifies the same way (infinite or zero).
const EXP_CAP: u64 = 1_099_511_627_776;

/// Reads `s[from..to]` as a decimal exponent, capped at `EXP_CAP`.
fn exponent_value(s: &Vec<char>, from: usize, to: usize) -> (r: u64)
    requires
        from <= to <= s.len(),
        all_digits(s@.subrange(from as int, to as int)),
    ensures
        r == if digits_value(s@.subrange(from as int, to as int)) > EXP_CAP {
            EXP_CAP as nat
        } else {
            digits_value(s@.subrange(from as int, to as int))
        },
{
    let mut v: u64 = 0;
    let mut i = from;
    let ghost mut exact: nat = 0;
    while i < to
        invariant
            from <= i <= to <= s.len(),
            all_digits(s@.subrange(from as int, to as int)),
            exact == digits_value(s@.subrange(from as int, i as int)),
            v == if exact > EXP_CAP {
                EXP_CAP as nat
            } else {
                exact
            },
        decreases to - i,
    {
        let ghost sub = s@.subrange(from as int, i + 1);
        assert(sub.drop_last() =~= s@.subrange(from as int, i as int));
        assert(sub.last() == s@[i as int]);
        assert(spec_is_digit(s@[i as int])) by {
            assert(s@.subrange(from as int, to as int)[i - from] == s@[i as int]);
        }
        let d = (s[i] as u32 - '0' as u32) as u64;
        proof {
            exact = (exact * 10 + d) as nat;
        }
        if v >= EXP_CAP {
            v = EXP_CAP;
        } else {
            let w = v * 10 + d;
            v = if w > EXP_CAP {
                EXP_CAP
            } else {
                w
            };
        }
        i = i + 1;
    }
    v
}

/// Counts the leading `'0'`s of `d`.
fn count_leading_zeros(d: &Vec<char>) -> (r: usize)
    ensures
        r == leading_zeros(d@),
        r <= d.len(),
{
    let mut i: usize = 0;
    assert(d@.skip(0) =~= d@);
    while i < d.len() && d[i] == '0'
        invariant
            i <= d.len(),
            leading_zeros(d@) == i + leading_zeros(d@.skip(i as int)),
        decreases d.len() - i,
    {
        assert(d@.skip(i as int).drop_first() =~= d@.skip(i + 1));
        i = i + 1;
    }
    proof {
        if i < d.len() {
            assert(d@.skip(i as int)[0] == d@[i as int]);
        }
    }
    i
}

/// Counts the trailing `'0'`s of `d`.
fn count_trailing_zeros(d: &Vec<char>) -> (r: usize)
    ensures
        r == trailing_zeros(d@),
        r <= d.len(),
{
    let mut i: usize = 0;
    assert(d@.take(d.len() as int) =~= d@);
    while i < d.len() && d[d.len() - 1 - i] == '0'
        invariant
            i <= d.len(),
            trailing_zeros(d@) == i + trailing_zeros(d@.take(d.len() - i)),
        decreases d.len() - i,
    {
        assert(d@.take(d.len() - i).drop_last() =~= d@.take(d.len() - i - 1));
        i = i + 1;
    }
    proof {
        if i < d.len() {
            assert(d@.take(d.len() - i).last() == d@[d.len() - 1 - i]);
        }
    }
    i
}

fn push_zeros(v: &mut Vec<char>, n: usize)
    ensures
        final(v)@ == old(v)@ + zeros(n as int),
{
    let mut i: usize = 0;
    while i < n
        invariant
            i <= n,
            v@ == old(v)@ + zeros(i as int),
        decreases n - i,
    {
        v.push('0');
        assert(zeros(i + 1) =~= zeros(i as int).push('0'));
        i = i + 1;
    }
}

fn push_all(v: &mut Vec<char>, w: &Vec<char>, from: usize, to: usize)
    requires
        from <= to <= w.len(),
    ensures
        final(v)@ == old(v)@ + w@.subrange(from as int, to as int),
{
    let mut i = from;
    while i < to
        invariant
            from <= i <= to <= w.len(),
            v@ == old(v)@ + w@.subrange(from as int, i as int),
        decreases to - i,
    {
        v.push(w[i]);
        assert(w@.subrange(from as int, i + 1) =~= w@.subrange(from as int, i as int).push(
            w@[i as int],
        ));
        i = i + 1;
    }
}

fn push_lit(v: &mut Vec<char>, lit: &str)
    ensures
        final(v)@ == old(v)@ + lit@,
{
    let l = chars_of(lit);
    push_all(v, &l, 0, l.len());
    assert(l@.subrange(0, l@.len() as int) =~= l@);
}

/// Canonical text and `u32` value of a finite literal.
fn finite_result(neg: bool, s: &Vec<char>, i1: usize, fstart: usize, i2: usize, exp: i64) -> (r: (
    Vec<char>,
    Option<u32>,
))
    requires
        i1 <= fstart <= i2 <= s.len(),
        fstart == i1 || fstart == i1 + 1,
        all_digits(s@.subrange(0, i1 as int)),
        all_digits(s@.subrange(fstart as int, i2 as int)),
        i2 - (fstart - i1) < 0x1_0000_0000,
        -(EXP_CAP as int) <= exp <= EXP_CAP,
    ensures
        ({
            let int_d = s@.subrange(0, i1 as int);
            let frac_d = s@.subrange(fstart as int, i2 as int);
            forall|e: int|
                (e == exp || (exp == EXP_CAP && e > EXP_CAP) || (exp == -(EXP_CAP as int) && e
                    < -(EXP_CAP as int))) ==> {
                    &&& r.0@ == finite_text(neg, int_d, frac_d, e)
                    &&& r.1 == finite_u32(neg, int_d, frac_d, e)
                }
        }),
{
    let ghost int_d = s@.subrange(0, i1 as int);
    let ghost frac_d = s@.subrange(fstart as int, i2 as int);
    let mut d: Vec<char> = Vec::new();
    push_all(&mut d, s, 0, i1);
    push_all(&mut d, s, fstart, i2);
    assert(d@ == int_d + frac_d);
    let lz = count_leading_zeros(&d);
    let mut d1: Vec<char> = Vec::new();
    push_all(&mut d1, &d, lz, d.len());
    assert(d1@ =~= d@.skip(lz as int));
    let tz = count_trailing_zeros(&d1);
    let k = d1.len() - tz;
    let mut t: Vec<char> = Vec::new();
    push_all(&mut t, &d1, 0, k);
    assert(t@ =~= d1@.take(k as int));
    assert(t@ == significant(int_d, frac_d));
    let p: i64 = (i1 as i64) + exp - (lz as i64);
    let mut out: Vec<char> = Vec::new();
    if neg {
        out.push('-');
    }
    assert(out@ == sign_text(neg));
    let ghost pre = out@;
    if t.len() == 0 || p < -323 {
        out.push('0');
        assert(out@ =~= sign_text(neg) + seq!['0']);
        return (out, Some(0));
    }
    if p > 309 {
        push_lit(&mut out, "inf");
        return (out, None);
    }
    if p <= 0 {
        out.push('0');
        out.push('.');
        push_zeros(&mut out, (-p) as usize);
        push_all(&mut out, &t, 0, t.len());
        assert(t@.subrange(0, t@.len() as int) =~= t@);
        assert(out@ =~= sign_text(neg) + seq!['0', '.'] + zeros(-p) + t@);
        return (out, None);
    }
    let pu = p as usize;
    if pu >= k {
        push_all(&mut out, &t, 0, k);
        push_zeros(&mut out, pu - k);
        assert(t@.subrange(0, k as int) =~= t@);
        assert(out@ =~= sign_text(neg) + t@ + zeros(p - k));
        if neg {
            return (out, None);
        }
        // Whole number: t followed by (p - k) zeros, saturated at u32::MAX.
        proof {
            assert(t@.len() > 0);
            assert(all_digits(t@)) by {
                assert forall|j: int| 0 <= j < t@.len() implies spec_is_digit(#[trigger] t@[j]) by {
                    assert(t@[j] == d@[lz + j]);
                    if lz + j < i1 {
                        assert(d@[lz + j] == int_d[lz + j]);
                    } else {
                        assert(d@[lz + j] == frac_d[lz + j - i1]);
                    }
                }
            }
        }
        if pu > 10 {
            proof {
                assert(t@[0] == d@[lz as int]);
                assert(t@[0] != '0') by {
                    assert(d@.skip(lz as int)[0] == d@[lz as int]);
                    lemma_leading_zeros_stop(d@);
                }
                lemma_digits_lower(t@);
                lemma_pow10_add((k - 1) as nat, (pu - k) as nat);
                lemma_pow10_pos((pu - k) as nat);
                lemma_pow10_ge_10((pu - 1) as nat);
                let a = digits_value(t@);
                let b = pow10((pu - k) as nat);
                assert(a * b >= pow10((k - 1) as nat) * b) by (nonlinear_arith)
                    requires
                        a >= pow10((k - 1) as nat),
                        b >= 1,
                ;
            }
            return (out, Some(u32::MAX));
        }
        let mut v: u64 = 0;
        let mut j: usize = 0;
        while j < k
            invariant
                j <= k == t.len(),
                k <= pu <= 10,
                all_digits(t@),
                v == digits_value(t@.take(j as int)),
                v < pow10(j as nat),
            decreases k - j,
        {
            assert(t@.take(j + 1).drop_last() =~= t@.take(j as int));
            assert(spec_is_digit(t@[j as int]));
            proof {
                lemma_pow10_le(j as nat + 1, 10);
                assert(v * 10 + 9 < pow10(j as nat + 1)) by (nonlinear_arith)
                    requires
                        v + 1 <= pow10(j as nat),
                        pow10(j as nat + 1) == 10 * pow10(j as nat),
                ;
            }
            v = v * 10 + (t[j] as u32 - '0' as u32) as u64;
            j = j + 1;
        }
        assert(t@.take(k as int) =~= t@);
        let mut m: usize = 0;
        let mut w: u64 = v;
        while m < pu - k
            invariant
                m <= pu - k,
                k <= pu <= 10,
                v < pow10(k as nat),
                w == v * pow10(m as nat),
            decreases pu - k - m,
        {
            proof {
                lemma_pow10_pos(m as nat + 1);
                lemma_pow10_le((k + m + 1) as nat, 10);
                lemma_pow10_add(k as nat, m as nat + 1);
                assert(v * pow10(m as nat + 1) < pow10(k as nat) * pow10(m as nat + 1))
                    by (nonlinear_arith)
                    requires
                        v < pow10(k as nat),
                        pow10(m as nat + 1) >= 1,
                ;
                assert(w * 10 == v * pow10(m as nat + 1)) by (nonlinear_arith)
                    requires
                        w == v * pow10(m as nat),
                        pow10(m as nat + 1) == 10 * pow10(m as nat),
                ;
                lemma_pow10_pos(m as nat + 1);
            }
            w = w * 10;
            m = m + 1;
        }
        let r: u32 = if w > 0xFFFF_FFFF {
            u32::MAX
        } else {
            w as u32
        };
        return (out, Some(r));
    }
    push_all(&mut out, &t, 0, pu);
    out.push('.');
    push_all(&mut out, &t, pu, k);
    assert(t@.subrange(0, pu as int) =~= t@.take(p as int));
    assert(t@.subrange(pu as int, k as int) =~= t@.skip(p as int));
    assert(out@ =~= sign_text(neg) + t@.take(p as int) + seq!['.'] + t@.skip(p as int));
    (out, None)
}

/// The `u32` reading of a finite literal (see [`number_u32`]).
pub open spec fn finite_u32(neg: bool, int_d: Seq<char>, frac_d: Seq<char>, exp: int) -> Option<
    u32,
> {
    let t = significant(int_d, frac_d);
    let p = point_pos(int_d, frac_d, exp);
    let k = t.len() as int;
    if t.len() == 0 || p < min_point() {
        Some(0)
    } else if neg || p > max_point() || p < k {
        None
    } else {
        Some(saturate_u32(digits_value(t) * pow10((p - k) as nat)))
    }
}

proof fn lemma_leading_zeros_stop(d: Seq<char>)
    ensures
        leading_zeros(d) <= d.len(),
        leading_zeros(d) < d.len() ==> d[leading_zeros(d) as int] != '0',
    decreases d.len(),
{
    if d.len() > 0 && d[0] == '0' {
        lemma_leading_zeros_stop(d.drop_first());
        if leading_zeros(d) < d.len() {
            assert(d[leading_zeros(d) as int] == d.drop_first()[leading_zeros(d.drop_first())
                as int]);
        }
    }
}

proof fn lemma_pow10_ge_10(n: nat)
    requires
        n >= 10,
    ensures
        pow10(n) >= 10_000_000_000,
    decreases n,
{
    if n == 10 {
        reveal_with_fuel(pow10, 11);
    } else {
        lemma_pow10_ge_10((n - 1) as nat);
    }
}

proof fn lemma_pow10_le(n: nat, m: nat)
    requires
        n <= m,
        m == 10,
    ensures
        pow10(n) <= 10_000_000_000,
    decreases m - n,
{
    if n == 10 {
        reveal_with_fuel(pow10, 11);
    } else {
        lemma_pow10_le(n + 1, m);
        assert(pow10(n + 1) == 10 * pow10(n));
    }
}

/// Reads `raw` as a numeric literal: its canonical text and, when it is a
/// non-negative whole number, its saturated `u32` value. `None` when
/// `f64::from_str` would reject `raw`.
pub fn read_number(raw: &Vec<char>) -> (r: Option<(Vec<char>, Option<u32>)>)
    requires
        raw.len() < 0x1_0000_0000,
    ensures
        r is Some <==> is_number_literal(raw@),
        r matches Some((text, v)) ==> text@ == number_text(raw@) && v == number_u32(raw@),
{
    let (neg, start) = if raw.len() > 0 && (raw[0] == '+' || raw[0] == '-') {
        (raw[0] == '-', 1usize)
    } else {
        (false, 0usize)
    };
    let mut rest: Vec<char> = Vec::new();
    push_all(&mut rest, raw, start, raw.len());
    assert(split_sign(raw@) == (neg, rest@)) by {
        if start == 1 {
            assert(rest@ =~= raw@.skip(1));
        } else {
            assert(rest@ =~= raw@);
        }
    }
    let low = lower_vec(&rest);
    if is_lit(&low, "inf") || is_lit(&low, "infinity") {
        let mut out: Vec<char> = Vec::new();
        if neg {
            out.push('-');
        }
        push_lit(&mut out, "inf");
        assert(out@ =~= sign_text(neg) + "inf"@);
        return Some((out, None));
    }
    if is_lit(&low, "nan") {
        let mut out: Vec<char> = Vec::new();
        push_lit(&mut out, "NaN");
        assert(out@ =~= "NaN"@);
        return Some((out, None));
    }
    read_finite(neg, &rest)
}

/// The finite part of [`read_number`]: `r` is the literal without its sign.
fn read_finite(neg: bool, r: &Vec<char>) -> (res: Option<(Vec<char>, Option<u32>)>)
    requires
        r.len() < 0x1_0000_0000,
    ensures
        res is Some <==> finite_shape(r@) is Some,
        res matches Some((text, v)) ==> (finite_shape(r@) matches Some(
            LitShape::Finite { int_digits, frac_digits, exp },
        ) && text@ == finite_text(neg, int_digits, frac_digits, exp) && v == finite_u32(
            neg,
            int_digits,
            frac_digits,
            exp,
        )),
{
    let i1 = skip_digits(r, 0);
    let has_point = i1 < r.len() && r[i1] == '.';
    let i2 = if has_point {
        skip_digits(r, i1 + 1)
    } else {
        i1
    };
    let fstart = if has_point {
        i1 + 1
    } else {
        i1
    };
    proof {
        assert forall|k: int| 0 <= k < i1 implies spec_is_digit(
            #[trigger] r@.subrange(0, i1 as int)[k],
        ) by {
            lemma_scan_prefix(r@, 0, k);
        }
        assert forall|k: int| 0 <= k < i2 - fstart implies spec_is_digit(
            #[trigger] r@.subrange(fstart as int, i2 as int)[k],
        ) by {
            if has_point {
                lemma_scan_prefix(r@, i1 + 1, fstart + k);
            }
        }
        if !has_point {
            assert(r@.subrange(fstart as int, i2 as int) =~= Seq::<char>::empty());
        }
    }
    if i1 + (i2 - fstart) == 0 {
        return None;
    }
    if i2 == r.len() {
        let res = finite_result(neg, r, i1, fstart, i2, 0);
        return Some(res);
    }
    if r[i2] == 'e' || r[i2] == 'E' {
        read_with_exponent(neg, r, i1, fstart, i2)
    } else {
        None
    }
}

/// The branch of [`read_finite`] where an exponent marker follows the digits.
fn read_with_exponent(neg: bool, r: &Vec<char>, i1: usize, fstart: usize, i2: usize) -> (res:
    Option<(Vec<char>, Option<u32>)>)
    requires
        r.len() < 0x1_0000_0000,
        i1 == scan_digits(r@, 0),
        fstart == i1 || (fstart == i1 + 1 && i1 < r.len() && r@[i1 as int] == '.'),
        fstart == i1 ==> !(i1 < r.len() && r@[i1 as int] == '.'),
        i2 == if fstart == i1 + 1 {
            scan_digits(r@, fstart as int)
        } else {
            i1 as int
        },
        i1 + (i2 - fstart) > 0,
        i2 < r.len(),
        r@[i2 as int] == 'e' || r@[i2 as int] == 'E',
        all_digits(r@.subrange(0, i1 as int)),
        all_digits(r@.subrange(fstart as int, i2 as int)),
        fstart <= i2,
    ensures
        res is Some <==> finite_shape(r@) is Some,
        res matches Some((text, v)) ==> (finite_shape(r@) matches Some(
            LitShape::Finite { int_digits, frac_digits, exp },
        ) && text@ == finite_text(neg, int_digits, frac_digits, exp) && v == finite_u32(
            neg,
            int_digits,
            frac_digits,
            exp,
        )),
{
    let j = i2 + 1;
    let eneg = j < r.len() && r[j] == '-';
    let j2 = if j < r.len() && (r[j] == '+' || r[j] == '-') {
        j + 1
    } else {
        j
    };
    let m = skip_digits(r, j2);
    if m > j2 && m == r.len() {
        proof {
            assert forall|k: int| 0 <= k < m - j2 implies spec_is_digit(
                #[trigger] r@.subrange(j2 as int, m as int)[k],
            ) by {
                lemma_scan_prefix(r@, j2 as int, j2 + k);
            }
        }
        let ev = exponent_value(r, j2, m);
        let exp: i64 = if eneg {
            -(ev as i64)
        } else {
            ev as i64
        };
        let res = finite_result(neg, r, i1, fstart, i2, exp);
        proof {
            let dv = digits_value(r@.subrange(j2 as int, m as int)) as int;
            let e = if eneg {
                -dv
            } else {
                dv
            };
            if fstart == i1 {
                assert(r@.subrange(fstart as int, i2 as int) =~= Seq::<char>::empty());
            }
            assert(m == scan_digits(r@, j2 as int));
            assert(finite_shape(r@) == Some(
                LitShape::Finite {
                    int_digits: r@.subrange(0, i1 as int),
                    frac_digits: r@.subrange(fstart as int, i2 as int),
                    exp: e,
                },
            ));
            assert(e == exp || (exp == EXP_CAP && e > EXP_CAP) || (exp == -(EXP_CAP as int) && e
                < -(EXP_CAP as int)));
        }
        return Some(res);
    }
    None
}

proof fn lemma_scan_prefix(s: Seq<char>, i: int, k: int)
    requires
        0 <= i <= k < scan_digits(s, i),
    ensures
        spec_is_digit(s[k]),
    decreases k - i,
{
    if i < k {
        lemma_scan_prefix(s, i + 1, k);
    }
}

} // verus!
