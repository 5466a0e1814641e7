//! The shortest decimals that read back as a score.
use crate::big::Big;
use crate::score::{
    closest, decimal_den, decimal_num, decimal_of, find_mark, fraction_part, holds_at, is_word,
    law_closest_is_unique, lemma_den_positive, lemma_next, lemma_ten_above_two, lemma_ten_grows,
    magnitude, nearest, scale, score_of, significand, stays_at, units, unsigned, whole_part, Score,
    INFINITY, SIGN,
};
use crate::text::{
    all_digits, chars_of, copies, dec, dec_string, digits_value, is_digit, is_white,
    law_dec_reads_back, lemma_find_first,
    lemma_leading_zeros, push_chars, push_copies,
};
use vstd::arithmetic::power::{lemma_pow0, lemma_pow1, lemma_pow_adds, lemma_pow_positive, pow};
use vstd::arithmetic::power2::{lemma2_to64, lemma_pow2_adds, lemma_pow2_pos, pow2};
use vstd::prelude::*;

verus! {

/// Whether `d * 10^e` reads as the number of magnitude `m`.
pub open spec fn reads(d: nat, e: int, m: nat) -> bool {
    closest(decimal_num(d, e), decimal_den(e), m)
}

/// The distance of `d * 10^e` from the number of magnitude `m`, as a numerator
/// over `decimal_den(e)` in units of `2^-1074`.
pub open spec fn gap(d: nat, e: int, m: nat) -> nat {
    let at = decimal_num(d, e) as int;
    let goal = (units(m) * decimal_den(e)) as int;
    if at >= goal {
        (at - goal) as nat
    } else {
        (goal - at) as nat
    }
}

/// Whether `d * 10^e` is at least as close as `d2 * 10^e2`.
pub open spec fn no_farther(d: nat, e: int, d2: nat, e2: int, m: nat) -> bool {
    gap(d, e, m) * decimal_den(e2) <= gap(d2, e2, m) * decimal_den(e)
}

/// Whether `d * 10^e` has as few digits as any decimal that reads as the number
/// of magnitude `m`, and of those with so many is as close as any.
pub open spec fn shortest(m: nat, d: nat, e: int) -> bool {
    &&& d % 10 != 0
    &&& reads(d, e, m)
    &&& forall|d2: nat, e2: int|
        d2 > 0 && #[trigger] reads(d2, e2, m) ==> dec(d).len() <= dec(d2).len()
    &&& forall|d2: nat, e2: int|
        d2 > 0 && #[trigger] reads(d2, e2, m) && dec(d2).len() == dec(d).len() ==> no_farther(
            d,
            e,
            d2,
            e2,
            m,
        )
}

spec fn unit(e: int) -> nat {
    decimal_num(1, e)
}

spec fn goal(e: int, m: nat) -> nat {
    units(m) * decimal_den(e)
}

/// Whether `f` is the number of whole `10^e` in the number of magnitude `m`.
spec fn floored(f: nat, e: int, m: nat) -> bool {
    f * unit(e) <= goal(e, m) < (f + 1) * unit(e)
}

proof fn lemma_num(d: nat, e: int)
    ensures
        decimal_num(d, e) == d * unit(e),
        unit(e) > 0,
        decimal_den(e) > 0,
{
    lemma_den_positive(e);
    let t = pow2(1074);
    lemma_pow2_pos(1074);
    if e > 0 {
        let p = pow(10, e as nat);
        lemma_pow_positive(10, e as nat);
        assert(d * p * t == d * (1 * p * t)) by (nonlinear_arith);
        assert(d * p * t >= 0) by (nonlinear_arith)
            requires
                d >= 0,
                p > 0,
                t > 0,
        ;
        assert(1 * p * t > 0) by (nonlinear_arith)
            requires
                p > 0,
                t > 0,
        ;
    } else {
        assert(d * t == d * (1 * t)) by (nonlinear_arith);
        assert(d * t >= 0) by (nonlinear_arith)
            requires
                d >= 0,
                t > 0,
        ;
    }
}

/// One digit more at one power of ten less is the same decimal.
proof fn lemma_shift(d: nat, e: int) -> (k: nat)
    ensures
        k > 0,
        decimal_num(10 * d, e - 1) == k * decimal_num(d, e),
        decimal_den(e - 1) == k * decimal_den(e),
{
    lemma_num(10 * d, e - 1);
    lemma_num(d, e);
    lemma_pow1(10);
    let t = pow2(1074);
    lemma_pow2_pos(1074);
    if e > 0 {
        let p = pow(10, (e - 1) as nat);
        lemma_pow_positive(10, (e - 1) as nat);
        lemma_pow_adds(10, (e - 1) as nat, 1);
        assert(pow(10, e as nat) == p * 10);
        assert((10 * d) * p * t == d * (p * 10) * t) by (nonlinear_arith);
        if e == 1 {
            lemma_pow0(10);
            assert((10 * d) * 1 * t == (10 * d) * t);
        }
        assert(decimal_num(10 * d, e - 1) == decimal_num(d, e));
        1
    } else {
        lemma_pow_adds(10, (-e) as nat, 1);
        lemma_pow_positive(10, (-e) as nat);
        lemma_pow0(10);
        assert(decimal_den(e) == pow(10, (-e) as nat));
        assert((-(e - 1)) as nat == (-e) as nat + 1);
        assert((10 * d) * t == 10 * (d * t)) by (nonlinear_arith);
        10
    }
}

/// A decimal written with more digits at a smaller power of ten.
proof fn lemma_rescale(d: nat, e: int, b: int) -> (k: nat)
    requires
        b <= e,
    ensures
        k > 0,
        decimal_num((d * pow(10, (e - b) as nat)) as nat, b) == k * decimal_num(d, e),
        decimal_den(b) == k * decimal_den(e),
    decreases e - b,
{
    if b == e {
        lemma_pow0(10);
        assert(d * 1 == d);
        1
    } else {
        let k1 = lemma_shift(d, e);
        let k2 = lemma_rescale(10 * d, e - 1, b);
        let p = pow(10, (e - 1 - b) as nat);
        lemma_pow1(10);
        lemma_pow_adds(10, 1, (e - 1 - b) as nat);
        assert(d * (10 * p) == (10 * d) * p) by (nonlinear_arith);
        let k = k2 * k1;
        let n = decimal_num(d, e);
        let q = decimal_den(e);
        assert(k > 0) by (nonlinear_arith)
            requires
                k == k2 * k1,
                k1 > 0,
                k2 > 0,
        ;
        assert(k2 * (k1 * n) == k * n) by (nonlinear_arith)
            requires
                k == k2 * k1,
        ;
        assert(k2 * (k1 * q) == k * q) by (nonlinear_arith)
            requires
                k == k2 * k1,
        ;
        k
    }
}

proof fn lemma_stays_scaled(num: nat, den: nat, k: nat, m: nat)
    requires
        k > 0,
    ensures
        stays_at(k * num, k * den, m) == stays_at(num, den, m),
{
    let w = units(m) + units(m + 1);
    assert(w * (k * den) == k * (w * den)) by (nonlinear_arith);
    assert(2 * (k * num) == k * (2 * num)) by (nonlinear_arith);
    let a = 2 * num;
    let b = w * den;
    assert((k * a < k * b) == (a < b)) by (nonlinear_arith)
        requires
            k > 0,
    ;
    assert((k * a == k * b) == (a == b)) by (nonlinear_arith)
        requires
            k > 0,
    ;
}

proof fn lemma_closest_scaled(num: nat, den: nat, k: nat, m: nat)
    requires
        k > 0,
    ensures
        closest(k * num, k * den, m) == closest(num, den, m),
{
    lemma_stays_scaled(num, den, k, m);
    if m > 0 {
        lemma_stays_scaled(num, den, k, (m - 1) as nat);
    }
}

/// Whatever lies between a decimal that reads as a number and that number reads
/// as it too.
proof fn lemma_between(d: nat, x: nat, b: int, m: nat)
    requires
        0 < m < INFINITY,
        reads(d, b, m),
        (d <= x && x * unit(b) <= goal(b, m)) || (x <= d && goal(b, m) <= x * unit(b)),
    ensures
        reads(x, b, m),
{
    lemma_num(d, b);
    lemma_num(x, b);
    lemma_next(m);
    lemma_next((m - 1) as nat);
    lemma_pow2_pos(scale(m));
    lemma_pow2_pos(scale((m - 1) as nat));
    let a = unit(b);
    let q = decimal_den(b);
    let u = units(m);
    let above = u + units(m + 1);
    let below = units((m - 1) as nat) + u;
    assert(2 * (u * q) < above * q) by (nonlinear_arith)
        requires
            2 * u < above,
            q > 0,
    ;
    assert(below * q < 2 * (u * q)) by (nonlinear_arith)
        requires
            below < 2 * u,
            q > 0,
    ;
    if d <= x {
        assert(d * a <= x * a) by (nonlinear_arith)
            requires
                d <= x,
                a > 0,
        ;
    } else {
        assert(x * a <= d * a) by (nonlinear_arith)
            requires
                x <= d,
                a > 0,
        ;
    }
}

/// Among decimals of so many digits, the two round a number are the closest
/// ones: where any reads as the number, so does one of the two, and is as close.
proof fn lemma_two_suffice(f: nat, e: int, n: nat, m: nat, d2: nat, e2: int)
    requires
        0 < m < INFINITY,
        floored(f, e, m),
        n > 0,
        pow(10, (n - 1) as nat) <= f < pow(10, n),
        0 < d2 < pow(10, n),
        reads(d2, e2, m),
    ensures
        (reads(f, e, m) && no_farther(f, e, d2, e2, m)) || (reads(f + 1, e, m) && no_farther(
            f + 1,
            e,
            d2,
            e2,
            m,
        )),
{
    let b = if e2 < e {
        e2
    } else {
        e
    };
    let p = pow(10, (e - b) as nat);
    let p2 = pow(10, (e2 - b) as nat);
    lemma_pow_positive(10, (e - b) as nat);
    lemma_pow_positive(10, (e2 - b) as nat);
    let low = (f * p) as nat;
    let high = ((f + 1) * p) as nat;
    let mid = (d2 * p2) as nat;
    assert(f * p >= 0 && (f + 1) * p >= 0 && d2 * p2 >= 0) by (nonlinear_arith)
        requires
            p > 0,
            p2 > 0,
            f >= 0,
            d2 >= 0,
    ;
    let k = lemma_rescale(f, e, b);
    let kh = lemma_rescale(f + 1, e, b);
    let k2 = lemma_rescale(d2, e2, b);
    lemma_num(f, e);
    lemma_num(f + 1, e);
    lemma_num(low, b);
    lemma_num(high, b);
    lemma_num(mid, b);
    lemma_num(d2, e2);
    let q = decimal_den(e);
    assert(k == kh) by (nonlinear_arith)
        requires
            k * q == kh * q,
            q > 0,
    ;
    let u = units(m);
    assert(u * (k * q) == k * (u * q)) by (nonlinear_arith);
    assert(goal(b, m) == k * goal(e, m));
    let a = unit(b);
    let g = goal(e, m);
    let fe = f * unit(e);
    let he = (f + 1) * unit(e);
    assert(low * a == k * fe);
    assert(high * a == k * he);
    assert(k * fe <= k * g < k * he) by (nonlinear_arith)
        requires
            fe <= g < he,
            k > 0,
    ;
    lemma_closest_scaled(decimal_num(d2, e2), decimal_den(e2), k2, m);
    assert(reads(mid, b, m));
    lemma_closest_scaled(decimal_num(f, e), q, k, m);
    lemma_closest_scaled(decimal_num(f + 1, e), q, k, m);
    if e2 < e {
        lemma_pow0(10);
        assert(d2 * p2 == d2) by (nonlinear_arith)
            requires
                p2 == 1,
        ;
        lemma_pow1(10);
        lemma_pow_adds(10, (n - 1) as nat, 1);
        lemma_ten_grows(1, (e - b) as nat);
        let r = pow(10, (n - 1) as nat);
        assert(f * p >= r * 10) by (nonlinear_arith)
            requires
                f >= r,
                p >= 10,
                r >= 0,
                f >= 0,
        ;
        assert(mid <= low);
    } else {
        lemma_pow0(10);
        assert(f * p == f && (f + 1) * p == f + 1) by (nonlinear_arith)
            requires
                p == 1,
        ;
    }
    if mid <= low {
        lemma_between(mid, low, b, m);
        assert(mid * a <= low * a) by (nonlinear_arith)
            requires
                mid <= low,
                a > 0,
        ;
        assert(gap(low, b, m) <= gap(mid, b, m));
        lemma_gap_scaled(f, e, low, b, k, m);
        lemma_gap_scaled(d2, e2, mid, b, k2, m);
        lemma_no_farther(f, e, d2, e2, k, k2, gap(low, b, m), gap(mid, b, m), b, m);
    } else {
        assert(high <= mid);
        lemma_between(mid, high, b, m);
        assert(high * a <= mid * a) by (nonlinear_arith)
            requires
                high <= mid,
                a > 0,
        ;
        assert(gap(high, b, m) <= gap(mid, b, m));
        lemma_gap_scaled(f + 1, e, high, b, k, m);
        lemma_gap_scaled(d2, e2, mid, b, k2, m);
        lemma_no_farther(f + 1, e, d2, e2, k, k2, gap(high, b, m), gap(mid, b, m), b, m);
    }
}

proof fn lemma_gap_scaled(d: nat, e: int, x: nat, b: int, k: nat, m: nat)
    requires
        decimal_num(x, b) == k * decimal_num(d, e),
        decimal_den(b) == k * decimal_den(e),
    ensures
        gap(x, b, m) == k * gap(d, e, m),
{
    let u = units(m);
    let q = decimal_den(e);
    let n = decimal_num(d, e);
    assert(u * (k * q) == k * (u * q)) by (nonlinear_arith);
    let v = u * q;
    if n >= v {
        assert(k * n - k * v == k * (n - v) && k * n >= k * v) by (nonlinear_arith)
            requires
                n >= v,
                k >= 0,
        ;
    } else {
        assert(k * v - k * n == k * (v - n) && k * n <= k * v) by (nonlinear_arith)
            requires
                n <= v,
                k >= 0,
        ;
        if k * n == k * v {
            assert(k * (v - n) == 0);
        }
    }
}

proof fn lemma_no_farther(
    d: nat,
    e: int,
    d2: nat,
    e2: int,
    k: nat,
    k2: nat,
    g: nat,
    g2: nat,
    b: int,
    m: nat,
)
    requires
        k > 0,
        k2 > 0,
        decimal_den(b) == k * decimal_den(e),
        decimal_den(b) == k2 * decimal_den(e2),
        g == k * gap(d, e, m),
        g2 == k2 * gap(d2, e2, m),
        g <= g2,
    ensures
        no_farther(d, e, d2, e2, m),
{
    let x = gap(d, e, m);
    let x2 = gap(d2, e2, m);
    let q = decimal_den(e);
    let q2 = decimal_den(e2);
    lemma_den_positive(b);
    let w = decimal_den(b);
    let kk = k * k2;
    assert(kk > 0) by (nonlinear_arith)
        requires
            kk == k * k2,
            k > 0,
            k2 > 0,
    ;
    assert(kk * (x * q2) == g * w) by (nonlinear_arith)
        requires
            kk == k * k2,
            g == k * x,
            w == k2 * q2,
    ;
    assert(kk * (x2 * q) == g2 * w) by (nonlinear_arith)
        requires
            kk == k * k2,
            g2 == k2 * x2,
            w == k * q,
    ;
    assert(g * w <= g2 * w) by (nonlinear_arith)
        requires
            g <= g2,
            w > 0,
    ;
    let l = x * q2;
    let r = x2 * q;
    assert(l <= r) by (nonlinear_arith)
        requires
            kk * l <= kk * r,
            kk > 0,
    ;
}

/// Seventeen digits are enough.
proof fn lemma_seventeen(f: nat, e: int, m: nat)
    requires
        0 < m < INFINITY,
        floored(f, e, m),
        f >= 10_000_000_000_000_000,
    ensures
        reads(f, e, m) || reads(f + 1, e, m),
{
    let m0 = (m - 1) as nat;
    lemma_num(f, e);
    lemma_num(f + 1, e);
    lemma_next(m);
    lemma_next(m0);
    lemma_pow2_pos(scale(m));
    lemma_pow2_pos(scale(m0));
    let a = unit(e);
    let q = decimal_den(e);
    let u = units(m);
    let p = pow2(scale(m));
    let g = pow2(scale(m0));
    let s = significand(m);
    let s0 = significand(m0);
    assert(s < 0x20_0000_0000_0000 && s0 < 0x20_0000_0000_0000);
    assert(u == s * p);
    assert(u == s0 * g + g);
    assert(u <= 0x20_0000_0000_0000 * p) by (nonlinear_arith)
        requires
            u == s * p,
            0 <= s < 0x20_0000_0000_0000,
            p > 0,
    ;
    assert(u <= 0x20_0000_0000_0000 * g) by (nonlinear_arith)
        requires
            u == s0 * g + g,
            0 <= s0 < 0x20_0000_0000_0000,
            g > 0,
    ;
    assert(10_000_000_000_000_000 * a <= u * q) by (nonlinear_arith)
        requires
            f >= 10_000_000_000_000_000,
            f * a <= u * q,
            a > 0,
    ;
    assert(a < p * q) by (nonlinear_arith)
        requires
            10_000_000_000_000_000 * a <= u * q,
            u <= 0x20_0000_0000_0000 * p,
            p > 0,
            q > 0,
    ;
    assert(a < g * q) by (nonlinear_arith)
        requires
            10_000_000_000_000_000 * a <= u * q,
            u <= 0x20_0000_0000_0000 * g,
            g > 0,
            q > 0,
    ;
    let above = u + units(m + 1);
    let below = units(m0) + u;
    assert(above * q == 2 * (u * q) + p * q) by (nonlinear_arith)
        requires
            above == 2 * u + p,
    ;
    assert(below * q == 2 * (u * q) - g * q) by (nonlinear_arith)
        requires
            below == 2 * u - g,
    ;
    assert((f + 1) * a == f * a + a) by (nonlinear_arith);
}

proof fn lemma_dec_len(n: nat)
    requires
        n > 0,
    ensures
        dec(n).len() > 0,
        pow(10, (dec(n).len() - 1) as nat) <= n < pow(10, dec(n).len()),
    decreases n,
{
    lemma_pow0(10);
    lemma_pow1(10);
    if n >= 10 {
        lemma_dec_len(n / 10);
        let l = dec(n / 10).len();
        lemma_pow_adds(10, (l - 1) as nat, 1);
        lemma_pow_adds(10, l, 1);
    }
}

proof fn lemma_dec_len_below(n: nat, l: nat)
    requires
        n > 0,
    ensures
        n < pow(10, l) <==> dec(n).len() <= l,
{
    lemma_dec_len(n);
    let k = dec(n).len();
    if k <= l {
        lemma_ten_grows(k, l);
    } else {
        lemma_ten_grows(l, (k - 1) as nat);
    }
}

// ---------------------------------------------------------------------------
// Texts
// ---------------------------------------------------------------------------

/// `d * 10^e` written out, with a point where it has digits behind one.
pub open spec fn decimal_text(d: nat, e: int) -> Seq<char> {
    let digits = dec(d);
    if e >= 0 {
        digits + copies('0', e as nat)
    } else if digits.len() > -e {
        digits.take(digits.len() + e) + seq!['.'] + digits.skip(digits.len() + e)
    } else {
        seq!['0', '.'] + copies('0', (-e - digits.len()) as nat) + digits
    }
}

/// Whether a text shows a score: with a shortest decimal where it is finite.
pub open spec fn shows(t: Seq<char>, s: Score) -> bool {
    let m = magnitude(s.bits);
    let sign = if s.negative() {
        seq!['-']
    } else {
        Seq::<char>::empty()
    };
    if s.nan() {
        t == "NaN"@
    } else if !s.finite() {
        t == sign + "inf"@
    } else if m == 0 {
        t == sign + "0"@
    } else {
        exists|d: nat, e: int| d > 0 && #[trigger] shortest(m, d, e) && t == sign + decimal_text(d, e)
    }
}

fn push_decimal(out: &mut String, d: u64, e: i64)
    requires
        -400 <= e <= 400,
    ensures
        final(out)@ == old(out)@ + decimal_text(d as nat, e as int),
{
    let ghost before = out@;
    let digits = chars_of(dec_string(d).as_str());
    if e >= 0 {
        push_chars(out, &digits, 0, digits.len());
        assert(digits@.subrange(0, digits@.len() as int) == digits@);
        push_copies(out, '0', e as usize);
    } else {
        let k: usize = (-e) as usize;
        if digits.len() > k {
            let at: usize = digits.len() - k;
            push_chars(out, &digits, 0, at);
            out.push('.');
            push_chars(out, &digits, at, digits.len());
            assert(digits@.subrange(0, at as int) == digits@.take(at as int));
            assert(digits@.subrange(at as int, digits@.len() as int) == digits@.skip(at as int));
        } else {
            out.push('0');
            out.push('.');
            push_copies(out, '0', k - digits.len());
            push_chars(out, &digits, 0, digits.len());
            assert(digits@.subrange(0, digits@.len() as int) == digits@);
        }
    }
    assert(out@ =~= before + decimal_text(d as nat, e as int));
}

impl Score {
    /// The score as a text that reads back as it, with as few digits as any.
    pub fn shown(&self) -> (r: String)
        ensures
            shows(r@, *self),
    {
        if self.is_nan() {
            return crate::text::owned("NaN");
        }
        let mut out = String::new();
        if self.is_negative() {
            out.push('-');
        }
        let ghost sign = out@;
        assert(sign == if self.negative() {
            seq!['-']
        } else {
            Seq::<char>::empty()
        });
        let m: u64 = self.bits % SIGN;
        if m == INFINITY {
            out.push_str("inf");
        } else if m == 0 {
            out.push_str("0");
        } else {
            let (d, e) = shortest_decimal(m);
            push_decimal(&mut out, d, e);
        }
        out
    }
}

proof fn lemma_no_mark(s: Seq<char>)
    requires
        forall|i: int| 0 <= i < s.len() ==> is_digit(#[trigger] s[i]) || s[i] == '.',
    ensures
        find_mark(s) == s.len(),
    decreases s.len(),
{
    if s.len() > 0 {
        let rest = s.drop_first();
        assert(is_digit(s[0]) || s[0] == '.');
        assert forall|i: int| 0 <= i < rest.len() implies is_digit(#[trigger] rest[i]) || rest[i]
            == '.' by {
            assert(rest[i] == s[i + 1]);
        }
        lemma_no_mark(rest);
    }
}

proof fn lemma_digits_have_no(a: Seq<char>, c: char)
    requires
        all_digits(a),
        !is_digit(c),
    ensures
        !a.contains(c),
{
    if a.contains(c) {
        let i = choose|i: int| 0 <= i < a.len() && a[i] == c;
        assert(is_digit(a[i]));
    }
}

proof fn lemma_zeros_behind(s: Seq<char>, k: nat)
    ensures
        digits_value(s + copies('0', k)) == digits_value(s) * pow(10, k),
    decreases k,
{
    let t = s + copies('0', k);
    if k == 0 {
        lemma_pow0(10);
        assert(t == s);
        let v = digits_value(s);
        assert(v * 1 == v);
    } else {
        lemma_zeros_behind(s, (k - 1) as nat);
        assert(t.drop_last() == s + copies('0', (k - 1) as nat));
        assert(t.last() == '0');
        lemma_pow1(10);
        lemma_pow_adds(10, (k - 1) as nat, 1);
        let v = digits_value(s);
        let p = pow(10, (k - 1) as nat);
        assert((v * p) * 10 == v * (p * 10)) by (nonlinear_arith);
    }
}

/// A decimal written out reads as the same decimal.
proof fn lemma_decimal_text(d: nat, e: int) -> (r: (nat, int))
    requires
        d > 0,
    ensures
        decimal_of(decimal_text(d, e)) == Some(r),
        decimal_text(d, e).len() > 0,
        is_digit(decimal_text(d, e)[0]),
        forall|m: nat| reads(d, e, m) ==> #[trigger] reads(r.0, r.1, m),
{
    law_dec_reads_back(d);
    let digits = dec(d);
    let t = decimal_text(d, e);
    let n = digits.len() as int;
    if e >= 0 {
        let zeros = copies('0', e as nat);
        assert forall|i: int| 0 <= i < t.len() implies is_digit(#[trigger] t[i]) by {
            if i < n {
                assert(t[i] == digits[i]);
            }
        }
        lemma_no_mark(t);
        lemma_digits_have_no(t, '.');
        lemma_find_first(t, Seq::empty(), '.');
        assert(t + Seq::<char>::empty() == t);
        lemma_zeros_behind(digits, e as nat);
        assert(t.take(t.len() as int) == t);
        assert(t + Seq::<char>::empty() == t);
        let big = (d * pow(10, e as nat)) as nat;
        lemma_pow_positive(10, e as nat);
        let k = lemma_rescale(d, e, 0);
        assert forall|m: nat| reads(d, e, m) implies #[trigger] reads(big, 0, m) by {
            lemma_closest_scaled(decimal_num(d, e), decimal_den(e), k, m);
        }
        assert(is_digit(t[0]));
        (big, 0)
    } else if n > -e {
        let a = digits.take(n + e);
        let b = digits.skip(n + e);
        assert(all_digits(a) && all_digits(b)) by {
            assert forall|i: int| 0 <= i < a.len() implies is_digit(#[trigger] a[i]) by {
                assert(is_digit(digits[i]));
            }
            assert forall|i: int| 0 <= i < b.len() implies is_digit(#[trigger] b[i]) by {
                assert(is_digit(digits[i + n + e]));
            }
        }
        lemma_pointed(a, b);
        assert(a + b == digits);
        assert(is_digit(a[0]));
        (d, e)
    } else {
        let k = (-e - n) as nat;
        let a = seq!['0'];
        let b = copies('0', k) + digits;
        assert(all_digits(a));
        assert(all_digits(b)) by {
            assert forall|i: int| 0 <= i < b.len() implies is_digit(#[trigger] b[i]) by {
                if i >= k {
                    assert(is_digit(digits[i - k]));
                }
            }
        }
        assert(t == a + seq!['.'] + b);
        lemma_pointed(a, b);
        assert(a + b == copies('0', k + 1) + digits);
        lemma_leading_zeros(k + 1, digits);
        (d, e)
    }
}

proof fn lemma_pointed(a: Seq<char>, b: Seq<char>)
    requires
        all_digits(a),
        all_digits(b),
        a.len() > 0,
    ensures
        decimal_of(a + seq!['.'] + b) == Some((digits_value(a + b), -(b.len() as int))),
{
    let t = a + seq!['.'] + b;
    assert forall|i: int| 0 <= i < t.len() implies is_digit(#[trigger] t[i]) || t[i] == '.' by {
        if i < a.len() {
            assert(is_digit(a[i]));
        } else if i > a.len() {
            assert(is_digit(b[i - a.len() - 1]));
        }
    }
    lemma_no_mark(t);
    lemma_digits_have_no(a, '.');
    assert(t == a + (seq!['.'] + b));
    lemma_find_first(a, seq!['.'] + b, '.');
    assert(t.take(t.len() as int) == t);
    assert(whole_part(t) == a);
    assert(fraction_part(t) == b);
    assert(all_digits(a + b)) by {
        assert forall|i: int| 0 <= i < (a + b).len() implies is_digit(#[trigger] (a + b)[i]) by {
            if i < a.len() {
                assert(is_digit(a[i]));
            } else {
                assert(is_digit(b[i - a.len()]));
            }
        }
    }
}

/// A text that shows a finite score reads back as it.
pub proof fn law_shown_reads_back(t: Seq<char>, s: Score)
    requires
        s.finite(),
        shows(t, s),
    ensures
        score_of(t) == Some(s),
{
    let m = magnitude(s.bits);
    let sign = if s.negative() {
        seq!['-']
    } else {
        Seq::<char>::empty()
    };
    reveal_strlit("0");
    reveal_strlit("inf");
    reveal_strlit("infinity");
    reveal_strlit("nan");
    let body: Seq<char> = if m == 0 {
        "0"@
    } else {
        let (d, e) = choose|d: nat, e: int|
            d > 0 && #[trigger] shortest(m, d, e) && t == sign + decimal_text(d, e);
        decimal_text(d, e)
    };
    assert(t == sign + body);
    if m == 0 {
        assert(body == seq!['0']);
        lemma_no_mark(body);
        lemma_digits_have_no(body, '.');
        lemma_find_first(body, Seq::empty(), '.');
        assert(body + Seq::<char>::empty() == body);
        assert(body.take(1) == body);
        assert(body + Seq::<char>::empty() == body);
        reveal_with_fuel(digits_value, 2);
        assert(body.drop_last() == Seq::<char>::empty());
        assert(digits_value(body) == 0);
        assert(decimal_of(body) == Some((0nat, 0int)));
        lemma_zero_reads();
        lemma_nearest(0, 0, 0);
    } else {
        let (d, e) = choose|d: nat, e: int|
            d > 0 && #[trigger] shortest(m, d, e) && t == sign + decimal_text(d, e);
        let r = lemma_decimal_text(d, e);
        assert(reads(r.0, r.1, m));
        lemma_nearest(r.0, r.1, m);
    }
    assert(is_digit(body[0]));
    assert(unsigned(t) == body) by {
        if s.negative() {
            assert(t.drop_first() == body);
        } else {
            assert(t == body);
            assert(t[0] == body[0]);
        }
    }
    assert(!is_word(body, "inf"@));
    assert(!is_word(body, "infinity"@));
    assert(!is_word(body, "nan"@));
}

proof fn lemma_decimal_chars(d: nat, e: int)
    requires
        d > 0,
    ensures
        decimal_text(d, e).len() > 0,
        forall|i: int|
            0 <= i < decimal_text(d, e).len() ==> is_digit(#[trigger] decimal_text(d, e)[i])
                || decimal_text(d, e)[i] == '.',
{
    law_dec_reads_back(d);
    let digits = dec(d);
    let t = decimal_text(d, e);
    let n = digits.len() as int;
    assert forall|i: int| 0 <= i < t.len() implies is_digit(#[trigger] t[i]) || t[i] == '.' by {
        if e >= 0 {
            if i < n {
                assert(t[i] == digits[i]);
            }
        } else if n > -e {
            if i < n + e {
                assert(t[i] == digits[i]);
            } else if i > n + e {
                assert(t[i] == digits[i - 1]);
            }
        } else if i >= 2 + (-e - n) {
            assert(t[i] == digits[i - 2 - (-e - n)]);
        }
    }
}

/// A text that shows a finite score has no white space in it.
pub proof fn law_shown_is_solid(t: Seq<char>, s: Score)
    requires
        s.finite(),
        shows(t, s),
    ensures
        t.len() > 0,
        forall|i: int| 0 <= i < t.len() ==> !is_white(#[trigger] t[i]),
{
    let m = magnitude(s.bits);
    let sign = if s.negative() {
        seq!['-']
    } else {
        Seq::<char>::empty()
    };
    reveal_strlit("0");
    if m > 0 {
        let (d, e) = choose|d: nat, e: int|
            d > 0 && #[trigger] shortest(m, d, e) && t == sign + decimal_text(d, e);
        lemma_decimal_chars(d, e);
        let body = decimal_text(d, e);
        assert forall|i: int| 0 <= i < t.len() implies !is_white(#[trigger] t[i]) by {
            if i >= sign.len() {
                assert(t[i] == body[i - sign.len()]);
                assert(is_digit(body[i - sign.len()]) || body[i - sign.len()] == '.');
            }
        }
    }
}

proof fn lemma_zero_reads()
    ensures
        reads(0, 0, 0),
{
    lemma_next(0);
    lemma2_to64();
    assert(units(0) + units(1) == 1);
    assert((units(0) + units(1)) * decimal_den(0) == 1);
    assert(decimal_num(0, 0) == 0);
}

proof fn lemma_nearest(d: nat, e: int, m: nat)
    requires
        reads(d, e, m),
        m < INFINITY,
    ensures
        nearest(d, e) == m,
{
    lemma_den_positive(e);
    let chosen = m as u64;
    assert(closest(decimal_num(d, e), decimal_den(e), chosen as nat));
    law_closest_is_unique(decimal_num(d, e), decimal_den(e), m, nearest(d, e) as nat);
}

// ---------------------------------------------------------------------------
// Digits
// ---------------------------------------------------------------------------

/// The power of ten above the point that an exponent asks for.
fn tens_up(e: i64) -> (r: u128)
    requires
        -10_000 < e < 10_000,
    ensures
        r == if e > 0 {
            e as int
        } else {
            0
        },
{
    if e > 0 {
        e as u128
    } else {
        0
    }
}

/// The power of ten below the point that an exponent asks for.
fn tens_down(e: i64) -> (r: u128)
    requires
        -10_000 < e < 10_000,
    ensures
        r == if e < 0 {
            -e as int
        } else {
            0
        },
{
    if e < 0 {
        (-e) as u128
    } else {
        0
    }
}

/// `d * 10^e` in units of `2^-1074`, times a power of two.
fn numerator(d: u64, e: i64, twice: bool) -> (r: Big)
    requires
        -10_000 < e < 10_000,
    ensures
        r@ == if twice {
            2 * decimal_num(d as nat, e as int)
        } else {
            decimal_num(d as nat, e as int)
        },
{
    let up = tens_up(e);
    let mut n = Big::from_u64(d);
    n.scale_ten(up);
    n.scale_two(if twice {
        1075
    } else {
        1074
    });
    proof {
        lemma_num(d as nat, e as int);
        lemma_pow0(10);
        lemma2_to64();
        lemma_pow2_adds(1074, 1);
        let p = pow(10, up as nat);
        let t = pow2(1074);
        assert(d * p * (t * 2) == 2 * (d * p * t)) by (nonlinear_arith);
        assert(d * 1 == d);
    }
    n
}

/// The significand and the scale of a magnitude.
fn parts(m: u64) -> (r: (u64, u128))
    requires
        m < INFINITY,
    ensures
        r.0 == significand(m as nat),
        r.1 == scale(m as nat),
{
    let q: u64 = m / 0x10_0000_0000_0000;
    if q == 0 {
        (m, 0)
    } else {
        (m % 0x10_0000_0000_0000 + 0x10_0000_0000_0000, (q - 1) as u128)
    }
}

/// The number of a magnitude over the denominator of an exponent.
fn goal_of(e: i64, m: u64) -> (r: Big)
    requires
        -10_000 < e < 10_000,
        m < INFINITY,
    ensures
        r@ == goal(e as int, m as nat),
{
    let (s, k) = parts(m);
    let mut g = Big::from_u64(s);
    g.scale_two(k);
    let down = tens_down(e);
    g.scale_ten(down);
    proof {
        lemma_pow0(10);
        lemma_pow_positive(10, down as nat);
        lemma_num(1, e as int);
        let u = units(m as nat);
        assert(u * 1 == u);
    }
    g
}

/// Whether `d * 10^e` is no greater than the number of magnitude `m`.
fn at_most(d: u64, e: i64, m: u64) -> (r: bool)
    requires
        -10_000 < e < 10_000,
        m < INFINITY,
    ensures
        r == (d * unit(e as int) <= goal(e as int, m as nat)),
{
    proof {
        lemma_num(d as nat, e as int);
    }
    !goal_of(e, m).less(&numerator(d, e, false))
}

/// Whether `d * 10^e` reads as the number of magnitude `m`.
fn reads_back(d: u64, e: i64, m: u64) -> (r: bool)
    requires
        -10_000 < e < 10_000,
        0 < m < INFINITY,
    ensures
        r == reads(d as nat, e as int, m as nat),
{
    let twice = numerator(d, e, true);
    let down = tens_down(e);
    let ghost num = decimal_num(d as nat, e as int);
    proof {
        lemma_num(d as nat, e as int);
        lemma_pow0(10);
        lemma_pow_positive(10, down as nat);
        assert(decimal_den(e as int) == pow(10, down as nat));
    }
    holds_at(&twice, down, m, Ghost(num)) && !holds_at(&twice, down, m - 1, Ghost(num))
}

/// Whether `f * 10^e` is closer to the number than `(f + 1) * 10^e`.
fn lower_is_closer(f: u64, e: i64, m: u64) -> (r: bool)
    requires
        -10_000 < e < 10_000,
        0 < m < INFINITY,
        f < 1_000_000_000_000_000_000,
        floored(f as nat, e as int, m as nat),
    ensures
        r ==> gap(f as nat, e as int, m as nat) <= gap((f + 1) as nat, e as int, m as nat),
        !r ==> gap((f + 1) as nat, e as int, m as nat) <= gap(f as nat, e as int, m as nat),
{
    let mut twice = goal_of(e, m);
    twice.mul_add(2, 0);
    let between = numerator(2 * f + 1, e, false);
    proof {
        lemma_num(f as nat, e as int);
        lemma_num((f + 1) as nat, e as int);
        lemma_num((2 * f + 1) as nat, e as int);
        let a = unit(e as int);
        assert((2 * f + 1) * a == 2 * (f * a) + a) by (nonlinear_arith);
        assert((f + 1) * a == f * a + a) by (nonlinear_arith);
    }
    twice.less(&between)
}

/// The next digit: how many `10^(e - 1)` there are, given how many `10^e`.
fn next_floor(f: u64, e: i64, m: u64) -> (g: u64)
    requires
        -9_000 < e < 9_000,
        0 < m < INFINITY,
        f < 1_000_000_000_000_000_000,
        floored(f as nat, e as int, m as nat),
    ensures
        floored(g as nat, e - 1, m as nat),
        10 * f <= g <= 10 * f + 9,
{
    let ghost a = unit(e - 1);
    let ghost goal1 = goal(e - 1, m as nat);
    let mut g: u64 = 10 * f;
    proof {
        let k = lemma_shift(f as nat, e as int);
        let k1 = lemma_shift((f + 1) as nat, e as int);
        lemma_num(f as nat, e as int);
        lemma_num((f + 1) as nat, e as int);
        lemma_num((10 * f) as nat, e - 1);
        lemma_num((10 * (f + 1)) as nat, e - 1);
        let q = decimal_den(e as int);
        assert(k == k1) by (nonlinear_arith)
            requires
                k * q == k1 * q,
                q > 0,
        ;
        let u = units(m as nat);
        assert(u * (k * q) == k * (u * q)) by (nonlinear_arith);
        let x = f * unit(e as int);
        let y = goal(e as int, m as nat);
        let z = (f + 1) * unit(e as int);
        assert(k * x <= k * y < k * z) by (nonlinear_arith)
            requires
                x <= y < z,
                k > 0,
        ;
    }
    while g < 10 * f + 9
        invariant_except_break
            10 * f <= g <= 10 * f + 9,
            g * a <= goal1 < (10 * f + 10) * a,
        invariant
            -9_000 < e < 9_000,
            0 < m < INFINITY,
            f < 1_000_000_000_000_000_000,
            a == unit(e - 1),
            goal1 == goal(e - 1, m as nat),
        ensures
            10 * f <= g <= 10 * f + 9,
            g * a <= goal1 < (g + 1) * a,
        decreases 10 * f + 9 - g,
    {
        if !at_most(g + 1, e - 1, m) {
            break;
        }
        g += 1;
    }
    g
}

/// The shortest decimal that reads as the number of a magnitude.
pub fn shortest_decimal(m: u64) -> (r: (u64, i64))
    requires
        0 < m < INFINITY,
    ensures
        shortest(m as nat, r.0 as nat, r.1 as int),
        r.0 > 0,
        -400 <= r.1 <= 400,
{
    let mut e: i64 = 342;
    let mut f: u64 = 0;
    let ghost mut n: nat = 0;
    proof {
        lemma_start(m as nat);
        lemma_pow0(10);
    }
    loop
        invariant
            0 < m < INFINITY,
            -376 <= e <= 342,
            floored(f as nat, e as int, m as nat),
            n <= 16,
            n == 0 <==> f == 0,
            n == 0 ==> e >= -358,
            n > 0 ==> e >= -358 - n,
            n > 0 ==> pow(10, (n - 1) as nat) <= f,
            f < pow(10, n),
            f < 10_000_000_000_000_000,
            forall|d2: nat, e2: int|
                0 < d2 < pow(10, n) ==> !#[trigger] reads(d2, e2, m as nat),
        decreases e + 400,
    {
        let ghost before = n;
        f = next_floor(f, e, m);
        e = e - 1;
        if f == 0 {
            proof {
                if e < -358 {
                    lemma_end(f as nat, m as nat, e as int);
                }
            }
            continue;
        }
        proof {
            n = before + 1;
            lemma_pow0(10);
            lemma_pow1(10);
            lemma_pow_adds(10, before, 1);
            if before > 0 {
                lemma_pow_adds(10, (before - 1) as nat, 1);
            }
            lemma_ten_grows(n, 17);
            lemma_sixteen();
        }
        let low = reads_back(f, e, m);
        let high = reads_back(f + 1, e, m);
        if low || high {
            let c: u64 = if low && (!high || lower_is_closer(f, e, m)) {
                f
            } else {
                f + 1
            };
            proof {
                assert forall|d2: nat, e2: int|
                    0 < d2 < pow(10, n) && #[trigger] reads(d2, e2, m as nat) implies no_farther(
                    c as nat,
                    e as int,
                    d2,
                    e2,
                    m as nat,
                ) by {
                    lemma_two_suffice(f as nat, e as int, n, m as nat, d2, e2);
                    lemma_den_positive(e2);
                    let q = decimal_den(e2);
                    let x = gap(c as nat, e as int, m as nat);
                    let y = gap(f as nat, e as int, m as nat);
                    let z = gap((f + 1) as nat, e as int, m as nat);
                    if low && high {
                        assert(x * q <= y * q && x * q <= z * q) by (nonlinear_arith)
                            requires
                                x <= y,
                                x <= z,
                                q > 0,
                        ;
                    }
                }
                assert(forall|d2: nat, e2: int|
                    0 < d2 < pow(10, before) ==> !#[trigger] reads(d2, e2, m as nat));
            }
            return stripped(c, e, m, Ghost(n));
        }
        proof {
            assert forall|d2: nat, e2: int| 0 < d2 < pow(10, n) implies !#[trigger] reads(
                d2,
                e2,
                m as nat,
            ) by {
                if reads(d2, e2, m as nat) {
                    lemma_two_suffice(f as nat, e as int, n, m as nat, d2, e2);
                }
            }
            if n == 17 {
                lemma_seventeen(f as nat, e as int, m as nat);
            }
            lemma_ten_grows(n, 16);
        }
    }
}

proof fn lemma_sixteen()
    ensures
        pow(10, 16) == 10_000_000_000_000_000,
        pow(10, 17) == 100_000_000_000_000_000,
{
    reveal(pow);
    reveal_with_fuel(pow, 18);
}

/// Every number is below `10^342`.
proof fn lemma_start(m: nat)
    requires
        m < INFINITY,
    ensures
        floored(0, 342, m),
{
    lemma_num(1, 342);
    lemma_num(0, 342);
    let s = significand(m);
    let k = scale(m);
    assert(k <= 2045);
    assert(s < 0x20_0000_0000_0000);
    lemma_ten_above_two(342);
    lemma2_to64();
    lemma_pow2_adds(1026, 1074);
    lemma_pow2_adds(k, (2045 - k) as nat);
    lemma_pow2_adds(2045, 55);
    lemma_pow2_pos(k);
    lemma_pow2_pos((2045 - k) as nat);
    lemma_pow2_pos(1074);
    let p = pow2(k);
    let rest = pow2((2045 - k) as nat);
    let top = pow2(2045);
    vstd::arithmetic::power2::lemma2_to64_rest();
    assert(pow2(55) == 0x80_0000_0000_0000);
    assert(p <= top) by (nonlinear_arith)
        requires
            top == p * rest,
            p > 0,
            rest >= 1,
    ;
    assert(s * p < top * 0x80_0000_0000_0000) by (nonlinear_arith)
        requires
            0 <= s < 0x20_0000_0000_0000,
            0 < p <= top,
    ;
    let t = pow2(1074);
    let ten = pow(10, 342);
    assert(1 * ten * t >= pow2(1026) * t) by (nonlinear_arith)
        requires
            ten >= pow2(1026),
            t > 0,
    ;
    assert(units(m) * 1 == units(m));
    assert((0 + 1) * unit(342) == unit(342));
    assert(0 * unit(342) == 0);
}

/// Every positive number is at least `10^-358`.
proof fn lemma_end(f: nat, m: nat, e: int)
    requires
        0 < m < INFINITY,
        e <= -358,
        floored(f, e, m),
    ensures
        f > 0,
{
    lemma_num(1, e);
    lemma_ten_above_two(358);
    lemma_ten_grows(358, (-e) as nat);
    lemma_pow2_pos(scale(m));
    let s = significand(m);
    let p = pow2(scale(m));
    assert(s >= 1);
    assert(s * p >= 1) by (nonlinear_arith)
        requires
            s >= 1,
            p >= 1,
    ;
    let q = decimal_den(e);
    let u = units(m);
    assert(u * q >= q) by (nonlinear_arith)
        requires
            u >= 1,
            q > 0,
    ;
    assert(unit(e) == pow2(1074));
    assert((0 + 1) * unit(e) == unit(e));
}

/// The decimal without zeros at its end.
fn stripped(c: u64, at: i64, m: u64, n: Ghost<nat>) -> (r: (u64, i64))
    requires
        0 < m < INFINITY,
        -376 <= at <= 342,
        n@ > 0,
        0 < c <= pow(10, n@),
        c <= 100_000_000_000_000_000,
        reads(c as nat, at as int, m as nat),
        forall|d2: nat, e2: int|
            0 < d2 < pow(10, (n@ - 1) as nat) ==> !#[trigger] reads(d2, e2, m as nat),
        forall|d2: nat, e2: int|
            0 < d2 < pow(10, n@) && #[trigger] reads(d2, e2, m as nat) ==> no_farther(
                c as nat,
                at as int,
                d2,
                e2,
                m as nat,
            ),
    ensures
        shortest(m as nat, r.0 as nat, r.1 as int),
        r.0 > 0,
        -400 <= r.1 <= 400,
{
    let mut d: u64 = c;
    let mut e: i64 = at;
    let ghost mut k: nat = 1;
    let ghost mut ten: nat = 1;
    let ghost mut steps: int = 0;
    proof {
        lemma_pow0(10);
    }
    while d % 10 == 0
        invariant
            0 < d <= c,
            c <= 100_000_000_000_000_000,
            -376 <= at <= 342,
            e == at + steps,
            steps >= 0,
            ten >= 1,
            steps > 0 ==> 10 * d <= c,
            steps <= 18,
            steps > 0 ==> c >= 10,
            d * ten == c,
            ten == pow(10, steps as nat),
            reads(d as nat, e as int, m as nat),
            k > 0,
            decimal_num(c as nat, at as int) == k * decimal_num(d as nat, e as int),
            decimal_den(at as int) == k * decimal_den(e as int),
        decreases d,
    {
        let ghost d0 = (d / 10) as nat;
        proof {
            let k1 = lemma_shift(d0, e + 1);
            assert(d == 10 * d0);
            lemma_closest_scaled(decimal_num(d0, e + 1), decimal_den(e + 1), k1, m as nat);
            let x = decimal_num(d0, e + 1);
            let q = decimal_den(e + 1);
            assert(k * (k1 * x) == (k * k1) * x) by (nonlinear_arith);
            assert(k * (k1 * q) == (k * k1) * q) by (nonlinear_arith);
            assert(k * k1 > 0) by (nonlinear_arith)
                requires
                    k > 0,
                    k1 > 0,
            ;
            k = k * k1;
            vstd::arithmetic::power::lemma_pow_adds(10, steps as nat, 1);
            lemma_pow1(10);
            assert(d0 * (ten * 10) == (10 * d0) * ten) by (nonlinear_arith);
            ten = ten * 10;
            steps = steps + 1;
            lemma_steps(d0, ten, steps as nat, c as nat);
        }
        d = d / 10;
        e = e + 1;
    }
    proof {
        let n = n@;
        lemma_pow_adds(10, (n - 1) as nat, 1);
        lemma_pow1(10);
        lemma_pow_positive(10, (n - 1) as nat);
        assert(d < pow(10, n)) by {
            if c == pow(10, n) {
                if steps == 0 {
                    assert(c % 10 == 0) by {
                        let r = pow(10, (n - 1) as nat);
                        assert((r * 10) % 10 == 0);
                    }
                }
            }
        }
        lemma_dec_len_below(d as nat, n);
        assert forall|d2: nat, e2: int| d2 > 0 && #[trigger] reads(d2, e2, m as nat) implies dec(
            d as nat,
        ).len() <= dec(d2).len() by {
            lemma_dec_len_below(d2, (n - 1) as nat);
        }
        lemma_dec_len_below(d as nat, (n - 1) as nat);
        assert(dec(d as nat).len() == n);
        assert forall|d2: nat, e2: int|
            d2 > 0 && #[trigger] reads(d2, e2, m as nat) && dec(d2).len() == dec(
                d as nat,
            ).len() implies no_farther(d as nat, e as int, d2, e2, m as nat) by {
            lemma_dec_len_below(d2, n);
            lemma_gap_scaled(d as nat, e as int, c as nat, at as int, k, m as nat);
            let x = gap(d as nat, e as int, m as nat);
            let y = gap(d2, e2, m as nat);
            let q = decimal_den(e as int);
            let q2 = decimal_den(e2);
            assert((k * x) * q2 <= y * (k * q));
            assert(x * q2 <= y * q) by (nonlinear_arith)
                requires
                    (k * x) * q2 <= y * (k * q),
                    k > 0,
            ;
        }
    }
    (d, e)
}

proof fn lemma_steps(d: nat, ten: nat, steps: nat, c: nat)
    requires
        d > 0,
        ten == pow(10, steps),
        d * ten == c,
        c <= 100_000_000_000_000_000,
    ensures
        steps <= 17,
        ten <= c,
{
    assert(ten <= c) by (nonlinear_arith)
        requires
            d * ten == c,
            d >= 1,
            ten >= 0,
    ;
    if steps > 17 {
        lemma_sixteen();
        lemma_ten_grows(18, steps);
        lemma_pow_adds(10, 17, 1);
        lemma_pow1(10);
    }
}

} // verus!
