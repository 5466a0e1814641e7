//! Scores: binary64 numbers held as their bit patterns, with their order, the
//! decimal texts they are read from and the decimal texts they are shown as.
use crate::big::Big;
use crate::config::Direction;
use crate::text::{
    all_digits, ascii_lower, chars_of, dec, digits_value, find_char, index_of, only_digits,
    push_dec, right_aligned,
};
use vstd::arithmetic::power::{lemma_pow0, lemma_pow1, lemma_pow_adds, lemma_pow_positive, pow};
use vstd::arithmetic::power2::{lemma2_to64, lemma2_to64_rest, lemma_pow2_adds, lemma_pow2_pos, pow2};
use vstd::prelude::*;

verus! {

/// A score: the bit pattern of a binary64 number.
#[derive(Debug, Clone, Copy, PartialEq, Eq, Structural)]
pub struct Score {
    pub bits: u64,
}

/// The magnitude bits of infinity; greater magnitudes are not numbers.
pub const INFINITY: u64 = 0x7ff0_0000_0000_0000;

/// The bit that marks a negative number.
pub const SIGN: u64 = 0x8000_0000_0000_0000;

/// The bits of the greatest finite number.
pub const GREATEST: u64 = 0x7fef_ffff_ffff_ffff;

/// The bits of the least finite number.
pub const LEAST: u64 = 0xffef_ffff_ffff_ffff;

/// What remains of a bit pattern without its sign.
pub open spec fn magnitude(bits: u64) -> nat {
    (bits % SIGN) as nat
}

/// The integer that the number is a multiple of, for a given magnitude.
pub open spec fn significand(m: nat) -> nat {
    if m / 0x10_0000_0000_0000 == 0 {
        m
    } else {
        m % 0x10_0000_0000_0000 + 0x10_0000_0000_0000
    }
}

/// The binary exponent above the smallest one, for a given magnitude.
pub open spec fn scale(m: nat) -> nat {
    if m / 0x10_0000_0000_0000 == 0 {
        0
    } else {
        (m / 0x10_0000_0000_0000 - 1) as nat
    }
}

/// The absolute value that a magnitude denotes, in units of `2^-1074`; for
/// infinity, that of the number that would come next.
pub open spec fn units(m: nat) -> nat {
    significand(m) * pow2(scale(m))
}

impl Score {
    /// Whether the bit pattern is no number.
    pub open spec fn nan(self) -> bool {
        magnitude(self.bits) > INFINITY
    }

    /// Whether the number is finite.
    pub open spec fn finite(self) -> bool {
        magnitude(self.bits) < INFINITY
    }

    /// Whether the sign is set.
    pub open spec fn negative(self) -> bool {
        self.bits >= SIGN
    }

    /// An integer that is ordered as the number is; both zeros have the same.
    pub open spec fn rank(self) -> int {
        if self.negative() {
            -(magnitude(self.bits) as int)
        } else {
            magnitude(self.bits) as int
        }
    }

    /// Whether the number is less than another; never where one is no number.
    pub open spec fn below(self, other: Score) -> bool {
        !self.nan() && !other.nan() && self.rank() < other.rank()
    }

    /// Whether the number is a better score than another.
    pub open spec fn better(self, other: Score, direction: Direction) -> bool {
        match direction {
            Direction::Min => self.below(other),
            Direction::Max => other.below(self),
        }
    }

    /// Whether the number is finite.
    pub fn is_finite(&self) -> (r: bool)
        ensures
            r == self.finite(),
    {
        self.bits % SIGN < INFINITY
    }

    /// Whether the bit pattern is no number.
    pub fn is_nan(&self) -> (r: bool)
        ensures
            r == self.nan(),
    {
        self.bits % SIGN > INFINITY
    }

    /// Whether the sign is set.
    pub fn is_negative(&self) -> (r: bool)
        ensures
            r == self.negative(),
    {
        self.bits >= SIGN
    }

    /// Whether the number is less than another.
    pub fn less(&self, other: &Score) -> (r: bool)
        ensures
            r == self.below(*other),
    {
        let a: u64 = self.bits % SIGN;
        let b: u64 = other.bits % SIGN;
        if a > INFINITY || b > INFINITY {
            false
        } else if self.bits >= SIGN {
            if other.bits >= SIGN {
                a > b
            } else {
                a > 0 || b > 0
            }
        } else {
            other.bits < SIGN && a < b
        }
    }

    /// Whether the number is a better score than another.
    pub fn is_better(&self, other: &Score, direction: Direction) -> (r: bool)
        ensures
            r == self.better(*other, direction),
    {
        match direction {
            Direction::Min => self.less(other),
            Direction::Max => other.less(self),
        }
    }
}

/// A score improves on the best one so far if there is none, or if it is better.
pub open spec fn improves(score: Score, best: Option<Score>, direction: Direction) -> bool {
    match best {
        None => true,
        Some(b) => score.better(b, direction),
    }
}

/// Whether a score improves on the best one so far.
pub fn is_improvement(score: &Score, best: &Option<Score>, direction: Direction) -> (r: bool)
    ensures
        r == improves(*score, *best, direction),
{
    match best {
        None => true,
        Some(b) => score.is_better(b, direction),
    }
}

/// No score is better than itself, better scores chain, and of two finite
/// scores of different rank exactly one is better.
pub proof fn law_better_orders(a: Score, b: Score, c: Score, direction: Direction)
    ensures
        !a.better(a, direction),
        a.better(b, direction) && b.better(c, direction) ==> a.better(c, direction),
        a.finite() && b.finite() && a.rank() != b.rank() ==> (a.better(b, direction) <==> !b.better(
            a,
            direction,
        )),
{
}

/// The sentinel of a direction is finite, and no finite score is worse.
pub proof fn law_sentinels_are_worst(s: Score)
    requires
        s.finite(),
    ensures
        (Score { bits: GREATEST }).finite(),
        (Score { bits: LEAST }).finite(),
        !(Score { bits: GREATEST }).better(s, Direction::Min),
        !(Score { bits: LEAST }).better(s, Direction::Max),
{
}

// ---------------------------------------------------------------------------
// Reading
// ---------------------------------------------------------------------------

/// Whether `num / den`, in units of `2^-1074`, lies below the middle between
/// the numbers of magnitudes `m` and `m + 1`, or in the middle with `m` even.
pub open spec fn stays_at(num: nat, den: nat, m: nat) -> bool {
    let middle = (units(m) + units(m + 1)) * den;
    2 * num < middle || (2 * num == middle && m % 2 == 0)
}

/// Whether `m` is the magnitude of the number closest to `num / den`, in units
/// of `2^-1074`, where of two equally close ones the even one is taken.
pub open spec fn closest(num: nat, den: nat, m: nat) -> bool {
    &&& m <= INFINITY
    &&& m == INFINITY || stays_at(num, den, m)
    &&& m == 0 || !stays_at(num, den, (m - 1) as nat)
}

/// The magnitude of the number closest to `d * 10^e`.
pub open spec fn nearest(d: nat, e: int) -> u64 {
    choose|m: u64| closest(decimal_num(d, e), decimal_den(e), m as nat)
}

/// The numerator of `d * 10^e` in units of `2^-1074`.
pub open spec fn decimal_num(d: nat, e: int) -> nat {
    if e > 0 {
        (d * pow(10, e as nat) * pow2(1074)) as nat
    } else {
        (d * pow2(1074)) as nat
    }
}

/// The denominator of `d * 10^e`.
pub open spec fn decimal_den(e: int) -> nat {
    if e < 0 {
        pow(10, (-e) as nat) as nat
    } else {
        1
    }
}

/// Whether a text is a word, whatever the case of its letters.
pub open spec fn is_word(s: Seq<char>, w: Seq<char>) -> bool {
    s.len() == w.len() && forall|i: int| 0 <= i < s.len() ==> ascii_lower(#[trigger] s[i]) == w[i]
}

/// Where the exponent mark stands, or the length of the text.
pub open spec fn find_mark(s: Seq<char>) -> int
    decreases s.len(),
{
    if s.len() == 0 || s[0] == 'e' || s[0] == 'E' {
        0
    } else {
        1 + find_mark(s.drop_first())
    }
}

/// A text without its sign.
pub open spec fn unsigned(s: Seq<char>) -> Seq<char> {
    if s.len() > 0 && (s[0] == '+' || s[0] == '-') {
        s.drop_first()
    } else {
        s
    }
}

/// Whether a text has a minus sign.
pub open spec fn minus(s: Seq<char>) -> bool {
    s.len() > 0 && s[0] == '-'
}

/// The exponent that a text reads as.
pub open spec fn exponent_of(s: Seq<char>) -> Option<int> {
    let body = unsigned(s);
    if body.len() == 0 || !all_digits(body) {
        None
    } else if minus(s) {
        Some(-(digits_value(body) as int))
    } else {
        Some(digits_value(body) as int)
    }
}

/// The digits before the point of a decimal.
pub open spec fn whole_part(s: Seq<char>) -> Seq<char> {
    if 0 <= find_char(s, '.') < s.len() {
        s.take(find_char(s, '.'))
    } else {
        s
    }
}

/// The digits behind the point of a decimal.
pub open spec fn fraction_part(s: Seq<char>) -> Seq<char> {
    if 0 <= find_char(s, '.') < s.len() {
        s.skip(find_char(s, '.') + 1)
    } else {
        Seq::empty()
    }
}

/// The decimal `d * 10^e` that a text without sign reads as: digits with at
/// most one point among them, then an optional exponent.
pub open spec fn decimal_of(s: Seq<char>) -> Option<(nat, int)> {
    let k = find_mark(s);
    let mantissa = s.take(k);
    let digits = whole_part(mantissa) + fraction_part(mantissa);
    let shift = fraction_part(mantissa).len() as int;
    if digits.len() == 0 || !all_digits(digits) {
        None
    } else if k >= s.len() {
        Some((digits_value(digits), -shift))
    } else {
        match exponent_of(s.skip(k + 1)) {
            None => None,
            Some(e) => Some((digits_value(digits), e - shift)),
        }
    }
}

/// The magnitude that a text without sign reads as.
pub open spec fn magnitude_of(s: Seq<char>) -> Option<u64> {
    if is_word(s, "inf"@) || is_word(s, "infinity"@) {
        Some(INFINITY)
    } else if is_word(s, "nan"@) {
        Some(0x7ff8_0000_0000_0000)
    } else {
        match decimal_of(s) {
            None => None,
            Some((d, e)) => Some(nearest(d, e)),
        }
    }
}

/// The score that a text reads as: an optional sign, then `inf`, `infinity`,
/// `nan` (in any case) or a decimal, of which the closest number is taken.
pub open spec fn score_of(s: Seq<char>) -> Option<Score> {
    match magnitude_of(unsigned(s)) {
        None => None,
        Some(m) => Some(
            Score {
                bits: if minus(s) {
                    (m + SIGN) as u64
                } else {
                    m
                },
            },
        ),
    }
}

pub proof fn lemma_next(m: nat)
    requires
        m < INFINITY,
    ensures
        units(m + 1) == units(m) + pow2(scale(m)),
        units(m) + units(m + 1) == (2 * significand(m) + 1) * pow2(scale(m)),
{
    let q = m / 0x10_0000_0000_0000;
    let f = m % 0x10_0000_0000_0000;
    let p = pow2(scale(m));
    let s = significand(m);
    lemma2_to64();
    assert((s + 1) * p == s * p + p) by (nonlinear_arith);
    assert((2 * s + 1) * p == s * p + (s * p + p)) by (nonlinear_arith);
    if f + 1 < 0x10_0000_0000_0000 {
        assert((m + 1) / 0x10_0000_0000_0000 == q);
        assert(significand(m + 1) == s + 1);
    } else {
        assert((m + 1) / 0x10_0000_0000_0000 == q + 1);
        assert((m + 1) % 0x10_0000_0000_0000 == 0);
        if q > 0 {
            lemma_pow2_adds(scale(m), 1);
            assert(0x10_0000_0000_0000 * (p * 2) == (0x1f_ffff_ffff_ffff + 1) * p)
                by (nonlinear_arith);
        }
    }
}

proof fn lemma_stays_on(num: nat, den: nat, a: nat, b: nat)
    requires
        den > 0,
        a <= b,
        b < INFINITY,
        stays_at(num, den, a),
    ensures
        stays_at(num, den, b),
    decreases b - a,
{
    if a < b {
        lemma_next(a);
        lemma_next(a + 1);
        lemma_pow2_pos(scale(a));
        lemma_pow2_pos(scale(a + 1));
        let x = units(a) + units(a + 1);
        let y = units(a + 1) + units(a + 2);
        assert(x * den < y * den) by (nonlinear_arith)
            requires
                x < y,
                den > 0,
        ;
        lemma_stays_on(num, den, a + 1, b);
    }
}

/// There is only one closest number.
pub proof fn law_closest_is_unique(num: nat, den: nat, a: nat, b: nat)
    requires
        den > 0,
        closest(num, den, a),
        closest(num, den, b),
    ensures
        a == b,
{
    if a < b {
        lemma_stays_on(num, den, a, (b - 1) as nat);
    } else if b < a {
        lemma_stays_on(num, den, b, (a - 1) as nat);
    }
}

pub proof fn lemma_den_positive(e: int)
    ensures
        decimal_den(e) > 0,
{
    if e < 0 {
        lemma_pow_positive(10, (-e) as nat);
    }
}

pub proof fn lemma_ten_above_two(n: nat)
    ensures
        pow(10, n) >= pow2(3 * n),
        pow2(3 * n) > 0,
    decreases n,
{
    lemma2_to64();
    lemma_pow2_pos(3 * n);
    if n == 0 {
        lemma_pow0(10);
    } else {
        let k = (n - 1) as nat;
        lemma_ten_above_two(k);
        lemma_pow_adds(10, k, 1);
        lemma_pow1(10);
        lemma_pow2_adds(3 * k, 3);
    }
}

pub proof fn lemma_ten_grows(a: nat, b: nat)
    requires
        a <= b,
    ensures
        0 < pow(10, a) <= pow(10, b),
{
    lemma_pow_positive(10, a);
    lemma_pow_positive(10, (b - a) as nat);
    lemma_pow_adds(10, a, (b - a) as nat);
    let x = pow(10, a);
    let y = pow(10, (b - a) as nat);
    assert(x <= x * y) by (nonlinear_arith)
        requires
            x > 0,
            y >= 1,
    ;
}

/// A row of digits denotes less than the power of ten of its length.
proof fn lemma_digits_bound(s: Seq<char>)
    requires
        all_digits(s),
    ensures
        digits_value(s) < pow(10, s.len()),
    decreases s.len(),
{
    if s.len() == 0 {
        lemma_pow0(10);
    } else {
        lemma_digits_bound(s.drop_last());
        lemma_pow_adds(10, (s.len() - 1) as nat, 1);
        lemma_pow1(10);
        assert(is_digit_last(s));
    }
}

spec fn is_digit_last(s: Seq<char>) -> bool {
    '0' <= s[s.len() - 1] <= '9'
}

/// A decimal with a large exponent is beyond the greatest number.
proof fn lemma_huge(d: nat, e: int)
    requires
        d > 0,
        e > 342,
    ensures
        closest(decimal_num(d, e), decimal_den(e), INFINITY as nat),
{
    let m = (INFINITY - 1) as nat;
    lemma_next(m);
    lemma2_to64();
    assert(significand(m) == 0x1f_ffff_ffff_ffff);
    assert(scale(m) == 2045);
    let p = pow(10, e as nat);
    lemma_ten_above_two(343);
    lemma_ten_grows(343, e as nat);
    let t = pow2(1074);
    let big = pow2(2045);
    lemma_pow2_pos(1074);
    lemma_pow2_pos(2045);
    lemma_pow2_adds(1029, 1074);
    lemma_pow2_adds(2045, 58);
    lemma2_to64_rest();
    assert(pow2(58) == 0x400_0000_0000_0000);
    assert(pow2(1029) * t == big * 0x400_0000_0000_0000);
    assert(d * p * t >= pow2(1029) * t) by (nonlinear_arith)
        requires
            d >= 1,
            p >= pow2(1029),
            t > 0,
            pow2(1029) > 0,
    ;
    assert((2 * 0x1f_ffff_ffff_ffff + 1) * big < 2 * (big * 0x400_0000_0000_0000))
        by (nonlinear_arith)
        requires
            big > 0,
    ;
    assert(decimal_num(d, e) == d * p * t);
}

/// A decimal with a very negative exponent is below the least positive number.
proof fn lemma_tiny(d: nat, e: int, len: nat)
    requires
        d < pow(10, len),
        e < -(len as int) - 359,
    ensures
        closest(decimal_num(d, e), decimal_den(e), 0),
{
    lemma_next(0);
    lemma2_to64();
    let gap = (-e - len) as nat;
    lemma_ten_above_two(359);
    lemma_ten_grows(359, gap);
    lemma_pow_adds(10, len, gap);
    lemma_pow2_adds(1074, 3);
    lemma_pow2_pos(1074);
    let t = pow2(1074);
    let a = pow(10, len);
    let b = pow(10, gap);
    assert(2 * (d * t) < a * b) by (nonlinear_arith)
        requires
            0 <= d < a,
            b >= t * 8,
            t > 0,
    ;
    assert(units(0) + units(1) == 1);
    assert(decimal_den(e) == a * b);
    assert(1 * decimal_den(e) == decimal_den(e));
}

/// Whether the decimal, given as twice its numerator and the power of ten of
/// its denominator, stays at a magnitude.
pub(crate) fn holds_at(twice: &Big, tens: u128, m: u64, num: Ghost<nat>) -> (r: bool)
    requires
        m < INFINITY,
        twice@ == 2 * num@,
    ensures
        r == stays_at(num@, pow(10, tens as nat) as nat, m as nat),
{
    let q: u64 = m / 0x10_0000_0000_0000;
    let s: u64 = if q == 0 {
        m
    } else {
        m % 0x10_0000_0000_0000 + 0x10_0000_0000_0000
    };
    let shift: u128 = if q == 0 {
        0
    } else {
        (q - 1) as u128
    };
    proof {
        assert(q < 2047);
    }
    let mut middle = Big::from_u64(2 * s + 1);
    middle.scale_two(shift);
    middle.scale_ten(tens);
    proof {
        lemma_next(m as nat);
        lemma_pow_positive(10, tens as nat);
    }
    if twice.less(&middle) {
        true
    } else if middle.less(twice) {
        false
    } else {
        m % 2 == 0
    }
}

/// The magnitude of the number closest to a decimal within bounds.
fn search(d: &Vec<char>, e: i128) -> (m: u64)
    requires
        all_digits(d@),
        -FAR * 4 < e <= 342,
    ensures
        closest(decimal_num(digits_value(d@), e as int), decimal_den(e as int), m as nat),
{
    let mut twice = Big::from_u64(0);
    let mut i: usize = 0;
    assert(d@.take(0) == Seq::<char>::empty());
    while i < d.len()
        invariant
            i <= d.len(),
            all_digits(d@),
            twice@ == digits_value(d@.take(i as int)),
        decreases d.len() - i,
    {
        assert(d@.take(i as int + 1).drop_last() == d@.take(i as int));
        assert(crate::text::is_digit(d@[i as int]));
        twice.mul_add(10, d[i] as u32 - 48);
        i += 1;
    }
    assert(d@.take(d@.len() as int) == d@);
    let ghost v = digits_value(d@);
    let up: u128 = if e > 0 {
        e as u128
    } else {
        0
    };
    let tens: u128 = if e < 0 {
        (-e) as u128
    } else {
        0
    };
    twice.scale_ten(up);
    twice.scale_two(1075);
    let ghost num = decimal_num(v, e as int);
    proof {
        lemma_pow0(10);
        lemma2_to64();
        lemma_pow2_adds(1074, 1);
        let p = pow(10, up as nat);
        lemma_pow_positive(10, up as nat);
        let t = pow2(1074);
        assert(v * p * (t * 2) == 2 * (v * p * t)) by (nonlinear_arith);
        if e <= 0 {
            assert(v * p == v);
        }
        assert(v * p * t >= 0) by (nonlinear_arith)
            requires
                v >= 0,
                p > 0,
                t >= 0,
        ;
        assert(v * t >= 0) by (nonlinear_arith)
            requires
                v >= 0,
                t >= 0,
        ;
        lemma_pow_positive(10, tens as nat);
        assert(decimal_den(e as int) == pow(10, tens as nat));
    }
    let mut low: u64 = 0;
    let mut high: u64 = INFINITY;
    while low < high
        invariant
            low <= high <= INFINITY,
            twice@ == 2 * num,
            num == decimal_num(v, e as int),
            decimal_den(e as int) == pow(10, tens as nat),
            low == 0 || !stays_at(num, decimal_den(e as int), (low - 1) as nat),
            high == INFINITY || stays_at(num, decimal_den(e as int), high as nat),
        decreases high - low,
    {
        let mid: u64 = low + (high - low) / 2;
        if holds_at(&twice, tens, mid, Ghost(num)) {
            high = mid;
        } else {
            low = mid + 1;
        }
    }
    low
}

/// Where the exponent mark stands.
fn mark_index(v: &Vec<char>) -> (n: usize)
    ensures
        n <= v.len(),
        n == find_mark(v@),
{
    let mut i: usize = 0;
    assert(v@.skip(0) == v@);
    while i < v.len() && v[i] != 'e' && v[i] != 'E'
        invariant
            i <= v.len(),
            find_mark(v@) == i + find_mark(v@.skip(i as int)),
        decreases v.len() - i,
    {
        assert(v@.skip(i as int).drop_first() == v@.skip(i as int + 1));
        i += 1;
    }
    i
}

/// The characters `from..to`.
fn part(v: &Vec<char>, from: usize, to: usize) -> (r: Vec<char>)
    requires
        from <= to <= v.len(),
    ensures
        r@ == v@.subrange(from as int, to as int),
{
    let mut out: Vec<char> = Vec::new();
    let mut i: usize = from;
    assert(v@.subrange(from as int, from as int) == Seq::<char>::empty());
    while i < to
        invariant
            from <= i <= to <= v.len(),
            out@ == v@.subrange(from as int, i as int),
        decreases to - i,
    {
        assert(v@.subrange(from as int, i as int + 1) == v@.subrange(from as int, i as int).push(
            v@[i as int],
        ));
        out.push(v[i]);
        i += 1;
    }
    out
}

/// A text without its sign.
fn without_sign(v: &Vec<char>) -> (r: Vec<char>)
    ensures
        r@ == unsigned(v@),
{
    let from: usize = if v.len() > 0 && (v[0] == '+' || v[0] == '-') {
        1
    } else {
        0
    };
    assert(from == 1 ==> v@.subrange(1, v@.len() as int) == v@.drop_first());
    assert(from == 0 ==> v@.subrange(0, v@.len() as int) == v@);
    part(v, from, v.len())
}

/// Beyond this an exponent need not be known exactly.
const FAR: i128 = 0x1_0000_0000_0000_0000_0000;

/// Reads an exponent, held to the range `-FAR..=FAR`.
fn read_exponent(v: &Vec<char>) -> (r: Option<i128>)
    ensures
        match exponent_of(v@) {
            None => r is None,
            Some(e) => r == Some(
                (if e > FAR {
                    FAR as int
                } else if e < -FAR {
                    -FAR
                } else {
                    e
                }) as i128,
            ),
        },
{
    let body = without_sign(v);
    if body.len() == 0 || !only_digits(&body) {
        return None;
    }
    let mut n: i128 = 0;
    let mut i: usize = 0;
    assert(body@.take(0) == Seq::<char>::empty());
    while i < body.len()
        invariant
            i <= body.len(),
            all_digits(body@),
            0 <= n <= FAR,
            digits_value(body@.take(i as int)) <= FAR ==> n == digits_value(body@.take(i as int)),
            digits_value(body@.take(i as int)) > FAR ==> n == FAR,
        decreases body.len() - i,
    {
        assert(body@.take(i as int + 1).drop_last() == body@.take(i as int));
        assert(crate::text::is_digit(body@[i as int]));
        let next: i128 = n * 10 + (body[i] as u32 - 48) as i128;
        n = if next > FAR {
            FAR
        } else {
            next
        };
        i += 1;
    }
    assert(body@.take(body@.len() as int) == body@);
    if v.len() > 0 && v[0] == '-' {
        Some(-n)
    } else {
        Some(n)
    }
}

proof fn lemma_zero(e: int)
    ensures
        closest(decimal_num(0, e), decimal_den(e), 0),
{
    lemma_next(0);
    lemma2_to64();
    lemma_den_positive(e);
    if e > 0 {
        assert(0 * pow(10, e as nat) * pow2(1074) == 0) by (nonlinear_arith);
    }
    assert(decimal_num(0, e) == 0);
    assert(units(0) + units(1) == 1);
    assert((units(0) + units(1)) * decimal_den(e) == decimal_den(e));
    assert(stays_at(0, decimal_den(e), 0));
}

/// Reads the magnitude of a decimal.
fn read_decimal(v: &Vec<char>) -> (r: Option<u64>)
    ensures
        r == match decimal_of(v@) {
            None => None,
            Some((d, e)) => Some(nearest(d, e)),
        },
        r matches Some(m) ==> m <= INFINITY,
{
    let k = mark_index(v);
    let mantissa = part(v, 0, k);
    assert(mantissa@ == v@.take(k as int));
    assert(mantissa@.skip(0) == mantissa@);
    let dot = index_of(&mantissa, 0, '.');
    let mut digits = part(&mantissa, 0, dot);
    let mut shift: usize = 0;
    if dot < mantissa.len() {
        let mut fraction = part(&mantissa, dot + 1, mantissa.len());
        shift = fraction.len();
        assert(fraction@ == fraction_part(mantissa@));
        digits.append(&mut fraction);
    }
    assert(digits@ == whole_part(mantissa@) + fraction_part(mantissa@));
    if digits.len() == 0 || !only_digits(&digits) {
        return None;
    }
    let mut exponent: i128 = 0;
    if k < v.len() {
        let tail = part(v, k + 1, v.len());
        assert(tail@ == v@.skip(k as int + 1));
        match read_exponent(&tail) {
            None => {
                return None;
            },
            Some(x) => {
                exponent = x;
            },
        }
    }
    let ghost d = decimal_of(v@).unwrap().0;
    let ghost e = decimal_of(v@).unwrap().1;
    let near: i128 = exponent - shift as i128;
    let m: u64;
    if all_zero(&digits) {
        m = 0;
        proof {
            lemma_zero(e);
        }
    } else if near > 342 {
        m = INFINITY;
        proof {
            lemma_huge(d, e);
        }
    } else if near < -(digits.len() as i128) - 359 {
        m = 0;
        proof {
            lemma_digits_bound(digits@);
            lemma_tiny(d, e, digits@.len());
        }
    } else {
        m = search(&digits, near);
        assert(near == e);
    }
    proof {
        let num = decimal_num(d, e);
        let den = decimal_den(e);
        lemma_den_positive(e);
        assert(closest(num, den, m as nat));
        law_closest_is_unique(num, den, m as nat, nearest(d, e) as nat);
    }
    Some(m)
}

/// Whether all digits are zero.
fn all_zero(v: &Vec<char>) -> (r: bool)
    requires
        all_digits(v@),
    ensures
        r == (digits_value(v@) == 0),
{
    let mut i: usize = 0;
    assert(v@.take(0) == Seq::<char>::empty());
    while i < v.len()
        invariant
            i <= v.len(),
            all_digits(v@),
            digits_value(v@.take(i as int)) == 0,
        decreases v.len() - i,
    {
        assert(v@.take(i as int + 1).drop_last() == v@.take(i as int));
        assert(crate::text::is_digit(v@[i as int]));
        if v[i] != '0' {
            proof {
                lemma_prefix_value(v@, i as int + 1);
            }
            return false;
        }
        i += 1;
    }
    assert(v@.take(v@.len() as int) == v@);
    true
}

/// The first digits of a row denote at most what the whole row denotes.
proof fn lemma_prefix_value(s: Seq<char>, n: int)
    requires
        0 <= n <= s.len(),
    ensures
        digits_value(s.take(n)) <= digits_value(s),
    decreases s.len() - n,
{
    if n < s.len() {
        lemma_prefix_value(s, n + 1);
        assert(s.take(n + 1).drop_last() == s.take(n));
    } else {
        assert(s.take(n) == s);
    }
}

/// Whether a text is a word, whatever the case of its letters.
fn matches_word(v: &Vec<char>, w: &str) -> (r: bool)
    requires
        forall|i: int| 0 <= i < w@.len() ==> 'a' <= #[trigger] w@[i] <= 'z',
    ensures
        r == is_word(v@, w@),
{
    let q = chars_of(w);
    if v.len() != q.len() {
        return false;
    }
    let mut i: usize = 0;
    while i < v.len()
        invariant
            i <= v.len(),
            v.len() == q.len(),
            q@ == w@,
            forall|j: int| 0 <= j < w@.len() ==> 'a' <= #[trigger] w@[j] <= 'z',
            forall|j: int| 0 <= j < i ==> ascii_lower(#[trigger] v@[j]) == w@[j],
        decreases v.len() - i,
    {
        let c = v[i];
        let x: u32 = c as u32;
        let y: u32 = q[i] as u32;
        assert('a' <= w@[i as int] <= 'z');
        let lower: u32 = if 'A' <= c && c <= 'Z' {
            x + 32
        } else {
            x
        };
        if lower != y {
            assert(ascii_lower(v@[i as int]) != w@[i as int]);
            return false;
        }
        i += 1;
    }
    true
}

impl Score {
    /// Reads a score.
    pub fn parse(s: &str) -> (r: Option<Score>)
        ensures
            r == score_of(s@),
    {
        let v = chars_of(s);
        let body = without_sign(&v);
        proof {
            reveal_strlit("inf");
            reveal_strlit("infinity");
            reveal_strlit("nan");
        }
        let m: u64 = if matches_word(&body, "inf") || matches_word(&body, "infinity") {
            INFINITY
        } else if matches_word(&body, "nan") {
            0x7ff8_0000_0000_0000
        } else {
            match read_decimal(&body) {
                None => {
                    return None;
                },
                Some(m) => m,
            }
        };
        if v.len() > 0 && v[0] == '-' {
            Some(Score { bits: m + SIGN })
        } else {
            Some(Score { bits: m })
        }
    }
}

// ---------------------------------------------------------------------------
// Showing
// ---------------------------------------------------------------------------

/// `n / d` rounded to an integer, a half to the even one.
pub open spec fn rounded(n: nat, d: nat) -> nat {
    let q = n / d;
    let r = n % d;
    if 2 * r < d || (2 * r == d && q % 2 == 0) {
        q
    } else {
        q + 1
    }
}

/// The absolute value of a finite number times `10^places`, rounded to an
/// integer.
pub open spec fn fixed_value(m: nat, places: nat) -> nat {
    if scale(m) >= 1074 {
        (significand(m) * pow2((scale(m) - 1074) as nat) * pow(10, places)) as nat
    } else {
        rounded((significand(m) * pow(10, places)) as nat, pow2((1074 - scale(m)) as nat))
    }
}

/// A number of `10^-places` in decimal.
pub open spec fn point_text(n: nat, places: nat) -> Seq<char> {
    let unit = pow(10, places) as nat;
    dec(n / unit) + seq!['.'] + right_aligned(dec(n % unit), places, '0')
}

/// A score with a fixed number of decimal places.
pub open spec fn fixed_text(s: Score, places: nat) -> Seq<char> {
    if s.nan() {
        "NaN"@
    } else {
        let sign = if s.negative() {
            seq!['-']
        } else {
            Seq::<char>::empty()
        };
        if s.finite() {
            sign + point_text(fixed_value(magnitude(s.bits), places), places)
        } else {
            sign + "inf"@
        }
    }
}

/// `10^places` for few places.
fn ten_to(places: usize) -> (r: u64)
    requires
        places <= 9,
    ensures
        r == pow(10, places as nat),
        1 <= r <= 1_000_000_000,
{
    let mut r: u64 = 1;
    let mut i: usize = 0;
    proof {
        lemma_pow0(10);
    }
    while i < places
        invariant
            i <= places <= 9,
            r == pow(10, i as nat),
            1 <= r,
        decreases places - i,
    {
        proof {
            lemma_pow_adds(10, i as nat, 1);
            lemma_pow1(10);
            lemma_ten_grows(i as nat + 1, 9);
            lemma_ten_of_nine();
        }
        r = r * 10;
        i += 1;
    }
    proof {
        lemma_ten_grows(places as nat, 9);
        lemma_ten_of_nine();
    }
    r
}

proof fn lemma_ten_of_nine()
    ensures
        pow(10, 9) == 1_000_000_000,
{
    reveal(pow);
    reveal_with_fuel(pow, 10);
}

/// `2^k` for few bits.
fn two_to(k: usize) -> (r: u128)
    requires
        k <= 120,
    ensures
        r == pow2(k as nat),
        r >= 1,
{
    let mut r: u128 = 1;
    let mut i: usize = 0;
    proof {
        lemma2_to64();
    }
    while i < k
        invariant
            i <= k <= 120,
            r == pow2(i as nat),
            r >= 1,
        decreases k - i,
    {
        proof {
            lemma_two_grows(i as nat + 1, 120);
            lemma_pow2_adds(i as nat, 1);
            lemma2_to64();
            lemma_pow2_adds(64, 56);
            lemma2_to64_rest();
            assert(pow2(120) == 0x1_0000_0000_0000_0000 * 0x100_0000_0000_0000);
        }
        r = r * 2;
        i += 1;
    }
    r
}

proof fn lemma_two_grows(a: nat, b: nat)
    requires
        a <= b,
    ensures
        0 < pow2(a) <= pow2(b),
{
    lemma_pow2_pos(a);
    lemma_pow2_pos((b - a) as nat);
    lemma_pow2_adds(a, (b - a) as nat);
    let x = pow2(a);
    let y = pow2((b - a) as nat);
    assert(x <= x * y) by (nonlinear_arith)
        requires
            x > 0,
            y >= 1,
    ;
}

/// `n / 2^k` rounded, a half to the even integer.
fn rounded_shift(n: u128, k: usize) -> (r: u128)
    requires
        1 <= k <= 1074,
        n < 0x100_0000_0000_0000_0000_0000,
    ensures
        r == rounded(n as nat, pow2(k as nat)),
        r <= n + 1,
{
    if k > 120 {
        proof {
            lemma_two_grows(120, k as nat);
            lemma2_to64();
            lemma_pow2_adds(64, 56);
            lemma2_to64_rest();
            let d = pow2(k as nat);
            assert(n < d);
            vstd::arithmetic::div_mod::lemma_small_mod(n as nat, d);
            vstd::arithmetic::div_mod::lemma_basic_div(n as int, d as int);
        }
        return 0;
    }
    let d = two_to(k);
    let q = n / d;
    let r = n % d;
    assert(q <= n) by (nonlinear_arith)
        requires
            d >= 1,
            q == n / d,
    ;
    if r < d - r || (r == d - r && q % 2 == 0) {
        q
    } else {
        q + 1
    }
}

/// Appends a number of `10^-places` in decimal.
fn push_point(out: &mut String, n: u128, places: usize)
    requires
        1 <= places <= 9,
        n < 0x200_0000_0000_0000_0000_0000,
    ensures
        final(out)@ == old(out)@ + point_text(n as nat, places as nat),
{
    let unit = ten_to(places);
    let whole: u128 = n / unit as u128;
    let rest: u64 = (n % unit as u128) as u64;
    push_wide(out, whole);
    out.push('.');
    let tail = crate::text::dec_string(rest);
    out.push_str(crate::text::align_right(tail.as_str(), places, '0').as_str());
    assert(out@ == old(out)@ + point_text(n as nat, places as nat));
}

/// Appends a number in decimal.
fn push_wide(out: &mut String, n: u128)
    ensures
        final(out)@ == old(out)@ + dec(n as nat),
    decreases n,
{
    if n < 10 {
        push_dec(out, n as u64);
    } else {
        push_wide(out, n / 10);
        out.push(crate::text::char_of_digit((n % 10) as u8));
        assert(out@ == old(out)@ + dec(n as nat));
    }
}

impl Score {
    /// The score with a fixed number of decimal places.
    pub fn fixed(&self, places: usize) -> (r: String)
        requires
            1 <= places <= 9,
        ensures
            r@ == fixed_text(*self, places as nat),
    {
        let m: u64 = self.bits % SIGN;
        let mut out = String::new();
        if m > INFINITY {
            out.push_str("NaN");
            assert(out@ == "NaN"@);
            return out;
        }
        if self.bits >= SIGN {
            out.push('-');
            assert(out@ == seq!['-']);
        }
        let ghost sign = out@;
        if m == INFINITY {
            out.push_str("inf");
            return out;
        }
        let q: u64 = m / 0x10_0000_0000_0000;
        let s: u64 = if q == 0 {
            m
        } else {
            m % 0x10_0000_0000_0000 + 0x10_0000_0000_0000
        };
        let e: u64 = if q == 0 {
            0
        } else {
            q - 1
        };
        let unit = ten_to(places);
        if e >= 1074 {
            let mut whole = Big::from_u64(s);
            whole.scale_two((e - 1074) as u128);
            let ghost x = whole@;
            whole.push_dec(&mut out);
            out.push('.');
            crate::text::push_copies(&mut out, '0', places);
            proof {
                let n = (x * pow(10, places as nat)) as nat;
                let u = unit as nat;
                assert(x * unit >= 0) by (nonlinear_arith)
                    requires
                        x >= 0,
                        unit >= 1,
                ;
                assert(n / u == x && n % u == 0) by {
                    vstd::arithmetic::div_mod::lemma_div_multiples_vanish(x as int, u as int);
                    vstd::arithmetic::div_mod::lemma_mod_multiples_basic(x as int, u as int);
                    assert(n == x * u);
                    assert(u * x == x * u) by (nonlinear_arith);
                }
                assert(right_aligned(dec(0), places as nat, '0') == crate::text::copies(
                    '0',
                    places as nat,
                ));
                assert(out@ == sign + point_text(n, places as nat));
            }
        } else {
            assert(s as u128 * unit as u128 <= 0x20_0000_0000_0000u128 * 1_000_000_000u128)
                by (nonlinear_arith)
                requires
                    s <= 0x20_0000_0000_0000,
                    unit <= 1_000_000_000,
            ;
            let n: u128 = s as u128 * unit as u128;
            let v = rounded_shift(n, (1074 - e) as usize);
            push_point(&mut out, v, places);
            assert(n as nat == (significand(m as nat) * pow(10, places as nat)) as nat);
        }
        out
    }
}

// ---------------------------------------------------------------------------
// What scores mean
// ---------------------------------------------------------------------------

proof fn lemma_units_grow(a: nat, b: nat)
    requires
        a < b <= INFINITY,
    ensures
        units(a) < units(b),
    decreases b - a,
{
    let c = (b - 1) as nat;
    lemma_next(c);
    lemma_pow2_pos(scale(c));
    if a < c {
        lemma_units_grow(a, c);
    }
}

/// The number that a finite score denotes, in units of `2^-1074`.
pub open spec fn worth(s: Score) -> int {
    if s.negative() {
        -(units(magnitude(s.bits)) as int)
    } else {
        units(magnitude(s.bits)) as int
    }
}

/// Scores are compared by the numbers that they denote: to minimize is to prefer
/// the lesser number, to maximize the greater one. Without a best score, any
/// score improves.
pub proof fn law_better_is_by_number(a: Score, b: Score)
    requires
        a.finite(),
        b.finite(),
    ensures
        improves(a, None, Direction::Min) && improves(a, None, Direction::Max),
        improves(a, Some(b), Direction::Min) <==> worth(a) < worth(b),
        improves(a, Some(b), Direction::Max) <==> worth(a) > worth(b),
{
    let m = magnitude(a.bits);
    let n = magnitude(b.bits);
    if m < n {
        lemma_units_grow(m, n);
    } else if n < m {
        lemma_units_grow(n, m);
    }
    assert(units(0) == 0) by {
        assert(significand(0) == 0);
        assert(0 * pow2(scale(0)) == 0);
    }
    if m > 0 {
        lemma_units_grow(0, m);
    }
    if n > 0 {
        lemma_units_grow(0, n);
    }
}

/// The closest number is no farther from what was read than any other, and where
/// another is as close, its magnitude is even.
pub proof fn law_closest_is_closest(num: nat, den: nat, m: nat, k: nat)
    requires
        closest(num, den, m),
        den > 0,
        m < INFINITY,
        k < INFINITY,
        k != m,
    ensures
        ({
            let near = num - units(m) * den;
            let far = num - units(k) * den;
            let near_by = if near < 0 {
                -near
            } else {
                near
            };
            let far_by = if far < 0 {
                -far
            } else {
                far
            };
            near_by <= far_by && (near_by == far_by ==> m % 2 == 0)
        }),
{
    let u = units(m);
    let v = units(k);
    if k < m {
        let w = units((m - 1) as nat);
        lemma_units_grow((m - 1) as nat, m);
        if k < m - 1 {
            lemma_units_grow(k, (m - 1) as nat);
        }
        assert(!stays_at(num, den, (m - 1) as nat));
        assert((w + u) * den == w * den + u * den) by (nonlinear_arith);
        assert(v * den <= w * den) by (nonlinear_arith)
            requires
                v <= w,
        ;
        assert(w * den < u * den) by (nonlinear_arith)
            requires
                w < u,
                den > 0,
        ;
        assert(v < w ==> v * den < w * den) by (nonlinear_arith)
            requires
                den > 0,
        ;
    } else {
        let w = units(m + 1);
        lemma_units_grow(m, m + 1);
        if m + 1 < k {
            lemma_units_grow(m + 1, k);
        }
        assert(stays_at(num, den, m));
        assert((u + w) * den == u * den + w * den) by (nonlinear_arith);
        assert(w * den <= v * den) by (nonlinear_arith)
            requires
                w <= v,
        ;
        assert(u * den < w * den) by (nonlinear_arith)
            requires
                u < w,
                den > 0,
        ;
        assert(w < v ==> w * den < v * den) by (nonlinear_arith)
            requires
                den > 0,
        ;
    }
}

proof fn lemma_no_mark_in(s: Seq<char>, rest: Seq<char>)
    requires
        forall|k: int| 0 <= k < s.len() ==> #[trigger] s[k] != 'e' && s[k] != 'E',
        rest.len() == 0 || rest[0] == 'e' || rest[0] == 'E',
    ensures
        find_mark(s + rest) == s.len(),
    decreases s.len(),
{
    let t = s + rest;
    if s.len() > 0 {
        assert(t[0] == s[0]);
        assert(t.drop_first() == s.drop_first() + rest);
        assert forall|k: int| 0 <= k < s.drop_first().len() implies #[trigger] s.drop_first()[k]
            != 'e' && s.drop_first()[k] != 'E' by {
            assert(s.drop_first()[k] == s[k + 1]);
        }
        lemma_no_mark_in(s.drop_first(), rest);
    } else if rest.len() > 0 {
        assert(t[0] == rest[0]);
    }
}

/// A row of digits is the number that it writes; digits behind a point count as
/// so many places; and an exponent moves the point.
pub proof fn law_decimals_read_as_written(
    a: Seq<char>,
    b: Seq<char>,
    x: Seq<char>,
)
    requires
        a.len() > 0 && all_digits(a),
        b.len() > 0 && all_digits(b),
        x.len() > 0 && all_digits(x),
    ensures
        decimal_of(a) == Some((digits_value(a), 0int)),
        decimal_of(a + seq!['.'] + b) == Some((digits_value(a + b), -(b.len() as int))),
        decimal_of(seq!['.'] + b) == Some((digits_value(b), -(b.len() as int))),
        decimal_of(a + seq!['.'] + b + seq!['e'] + x) == Some(
            (digits_value(a + b), digits_value(x) - b.len()),
        ),
        decimal_of(a + seq!['.'] + b + seq!['e', '-'] + x) == Some(
            (digits_value(a + b), -(digits_value(x) as int) - b.len()),
        ),
{
    let none = Seq::<char>::empty();
    lemma_digits_plain(a);
    lemma_digits_plain(b);
    lemma_digits_plain(x);
    let m = a + seq!['.'] + b;
    lemma_digits_joined(a, b);
    assert forall|k: int| 0 <= k < m.len() implies #[trigger] m[k] != 'e' && m[k] != 'E' by {
        if k < a.len() {
            assert(m[k] == a[k]);
        } else if k > a.len() {
            assert(m[k] == b[k - a.len() - 1]);
        }
    }
    let p = seq!['.'] + b;
    assert forall|k: int| 0 <= k < p.len() implies #[trigger] p[k] != 'e' && p[k] != 'E' by {
        if k > 0 {
            assert(p[k] == b[k - 1]);
        }
    }
    lemma_no_mark_in(a, none);
    lemma_no_mark_in(m, none);
    lemma_no_mark_in(p, none);
    assert(a + none == a && m + none == m && p + none == p);
    assert(a.take(a.len() as int) == a);
    assert(m.take(m.len() as int) == m);
    assert(p.take(p.len() as int) == p);
    crate::text::lemma_find_first(a, none, '.');
    crate::text::lemma_find_first(a, p, '.');
    crate::text::lemma_find_first(none, p, '.');
    assert(a + p == m);
    assert(none + p == p);
    assert(m.take(a.len() as int) == a);
    assert(m.skip(a.len() as int + 1) == b);
    assert(p.take(0) == none);
    assert(p.skip(1) == b);
    assert(none + b == b);
    let e = seq!['e'] + x;
    lemma_no_mark_in(m, e);
    let s = m + seq!['e'] + x;
    assert(s == m + e);
    assert(s.take(m.len() as int) == m);
    assert(s.skip(m.len() as int + 1) == x);
    let f = seq!['e', '-'] + x;
    lemma_no_mark_in(m, f);
    let t = m + seq!['e', '-'] + x;
    assert(t == m + f);
    assert(t.take(m.len() as int) == m);
    assert(t.skip(m.len() as int + 1) == seq!['-'] + x);
    assert((seq!['-'] + x).drop_first() == x);
}

proof fn lemma_digits_plain(s: Seq<char>)
    requires
        s.len() > 0,
        all_digits(s),
    ensures
        !s.contains('.'),
        s[0] != '+' && s[0] != '-' && s[0] != '.',
        forall|k: int| 0 <= k < s.len() ==> #[trigger] s[k] != 'e' && s[k] != 'E' && s[k] != '.',
{
    assert forall|k: int| 0 <= k < s.len() implies #[trigger] s[k] != 'e' && s[k] != 'E' && s[k]
        != '.' by {
        assert(crate::text::is_digit(s[k]));
    }
    assert(crate::text::is_digit(s[0]));
}

proof fn lemma_digits_joined(a: Seq<char>, b: Seq<char>)
    requires
        all_digits(a),
        all_digits(b),
    ensures
        all_digits(a + b),
{
    assert forall|k: int| 0 <= k < (a + b).len() implies crate::text::is_digit(
        #[trigger] (a + b)[k],
    ) by {
        if k < a.len() {
            assert(crate::text::is_digit(a[k]));
        } else {
            assert(crate::text::is_digit(b[k - a.len()]));
        }
    }
}

/// A minus sign turns a number into its opposite, a plus sign leaves it as it is.
pub proof fn law_sign_is_read(s: Seq<char>, v: Score)
    requires
        s.len() > 0 && s[0] != '+' && s[0] != '-',
        score_of(s) == Some(v),
        v.finite(),
    ensures
        !v.negative(),
        score_of(seq!['+'] + s) == Some(v),
        score_of(seq!['-'] + s) matches Some(w) && w.negative() && magnitude(w.bits) == magnitude(
            v.bits,
        ) && worth(w) == -worth(v),
{
    assert((seq!['+'] + s).drop_first() == s);
    assert((seq!['-'] + s).drop_first() == s);
    let m = magnitude_of(s).unwrap();
    if is_word(s, "inf"@) || is_word(s, "infinity"@) {
    } else if is_word(s, "nan"@) {
    } else {
        let (d, e) = decimal_of(s).unwrap();
        law_nearest_is_closest(d, e);
    }
    assert(m < SIGN);
    assert((m + SIGN) % (SIGN as int) == m % SIGN);
}

proof fn lemma_some_is_closest(num: nat, den: nat, m: nat)
    requires
        m <= INFINITY,
        m == 0 || !stays_at(num, den, (m - 1) as nat),
    ensures
        exists|k: u64| closest(num, den, k as nat),
    decreases INFINITY - m,
{
    if m == INFINITY || stays_at(num, den, m) {
        let k = m as u64;
        assert(closest(num, den, k as nat));
    } else {
        lemma_some_is_closest(num, den, m + 1);
    }
}

/// The number that a decimal is read as is the one closest to it.
pub proof fn law_nearest_is_closest(d: nat, e: int)
    ensures
        closest(decimal_num(d, e), decimal_den(e), nearest(d, e) as nat),
        nearest(d, e) <= INFINITY,
{
    lemma_some_is_closest(decimal_num(d, e), decimal_den(e), 0);
}

/// A score shown with a fixed number of places is at most half a unit in the last
/// place away from the number.
pub proof fn law_shown_places_are_rounded(m: nat, places: nat)
    ensures
        ({
            let shown = fixed_value(m, places) * pow2(1074);
            let exact = units(m) * pow(10, places);
            let gap = if shown < exact {
                exact - shown
            } else {
                shown - exact
            };
            2 * gap <= pow2(1074)
        }),
{
    let g = significand(m);
    let t = pow(10, places);
    let k = scale(m);
    lemma_pow_positive(10, places);
    lemma_pow2_pos(1074);
    if k >= 1074 {
        let j = (k - 1074) as nat;
        lemma_pow2_adds(j, 1074);
        let q = pow2(j) as int;
        let h = pow2(1074) as int;
        assert(pow2(k) == q * h);
        assert((g * q * t) * h == (g * (q * h)) * t) by (nonlinear_arith);
        assert(fixed_value(m, places) == g * q * t) by {
            assert(g * q * t >= 0) by (nonlinear_arith)
                requires
                    g >= 0,
                    q >= 0,
                    t >= 0,
            ;
        }
    } else {
        let j = (1074 - k) as nat;
        lemma_pow2_adds(j, k);
        lemma_pow2_pos(j);
        lemma_pow2_pos(k);
        let d = pow2(j) as int;
        let p = pow2(k) as int;
        let n = (g * t) as nat;
        assert(g * t >= 0) by (nonlinear_arith)
            requires
                g >= 0,
                t >= 0,
        ;
        let q = n as int / d;
        let r = n as int % d;
        vstd::arithmetic::div_mod::lemma_fundamental_div_mod(n as int, d);
        let f = rounded(n, pow2(j)) as int;
        let diff = f * d - n;
        assert((q + 1) * d == q * d + d) by (nonlinear_arith);
        assert(d * q == q * d) by (nonlinear_arith);
        vstd::arithmetic::div_mod::lemma_mod_bound(n as int, d);
        assert(-d <= 2 * diff <= d);
        assert(pow2(1074) == d * p);
        assert(f * (d * p) == (f * d) * p) by (nonlinear_arith);
        assert((g * p) * t == n * p) by (nonlinear_arith)
            requires
                n == g * t,
        ;
        assert((f * d) * p - n * p == diff * p) by (nonlinear_arith)
            requires
                diff == f * d - n,
        ;
        assert(-(d * p) <= 2 * (diff * p) <= d * p) by (nonlinear_arith)
            requires
                -d <= 2 * diff <= d,
                p > 0,
        ;
    }
}

proof fn lemma_digits_concat(a: Seq<char>, b: Seq<char>)
    ensures
        digits_value(a + b) == digits_value(a) * pow(10, b.len()) + digits_value(b),
    decreases b.len(),
{
    if b.len() == 0 {
        assert(a + b == a);
        lemma_pow0(10);
    } else {
        let init = b.drop_last();
        lemma_digits_concat(a, init);
        assert((a + b).drop_last() == a + init);
        assert((a + b).last() == b.last());
        lemma_pow_adds(10, init.len(), 1);
        lemma_pow1(10);
        let p = pow(10, init.len());
        let v = digits_value(a) as int;
        assert((v * p) * 10 == v * (p * 10)) by (nonlinear_arith);
    }
}

proof fn lemma_dec_fits(n: nat, places: nat)
    requires
        places > 0,
        n < pow(10, places),
    ensures
        dec(n).len() <= places,
    decreases places,
{
    if n >= 10 {
        if places == 1 {
            lemma_pow1(10);
        } else {
            lemma_pow_adds(10, (places - 1) as nat, 1);
            lemma_pow1(10);
            assert(n / 10 < pow(10, (places - 1) as nat));
            lemma_dec_fits(n / 10, (places - 1) as nat);
        }
    }
}

/// A score shown with a fixed number of places reads as the decimal that it
/// writes: so many places behind the point, and a minus sign exactly where the
/// number has one.
pub proof fn law_shown_places_read_back(s: Score, places: nat)
    requires
        s.finite(),
        places > 0,
    ensures
        decimal_of(unsigned(fixed_text(s, places))) == Some(
            (fixed_value(magnitude(s.bits), places), -(places as int)),
        ),
        minus(fixed_text(s, places)) <==> s.negative(),
{
    let n = fixed_value(magnitude(s.bits), places);
    let unit = pow(10, places) as nat;
    lemma_pow_positive(10, places);
    let a = dec(n / unit);
    let low = dec(n % unit);
    let b = right_aligned(low, places, '0');
    vstd::arithmetic::div_mod::lemma_mod_bound(n as int, unit as int);
    lemma_dec_fits(n % unit, places);
    crate::text::law_dec_reads_back(n / unit);
    crate::text::law_dec_reads_back(n % unit);
    crate::text::lemma_leading_zeros(crate::text::missing(low, places), low);
    assert(b.len() == places);
    assert forall|k: int| 0 <= k < b.len() implies crate::text::is_digit(#[trigger] b[k]) by {
        let z = crate::text::missing(low, places) as int;
        if k >= z {
            assert(b[k] == low[k - z]);
        }
    }
    law_decimals_read_as_written(a, b, b);
    lemma_digits_concat(a, b);
    vstd::arithmetic::div_mod::lemma_fundamental_div_mod(n as int, unit as int);
    assert((n / unit) * unit == unit * (n / unit)) by (nonlinear_arith);
    let t = a + seq!['.'] + b;
    assert(t == point_text(n, places));
    assert(t[0] == a[0]);
    assert(crate::text::is_digit(a[0]));
    if s.negative() {
        assert((seq!['-'] + t).drop_first() == t);
    } else {
        assert(Seq::<char>::empty() + t == t);
    }
}

} // verus!
