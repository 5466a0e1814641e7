//! Natural numbers of any size, as far as exact decimal conversion of a score
//! needs them.
use crate::text::{char_of_digit, dec};
use vstd::arithmetic::power::{lemma_pow0, lemma_pow_adds, pow};
use vstd::arithmetic::power2::{lemma2_to64, lemma_pow2_adds, pow2};
use vstd::prelude::*;

verus! {

/// The number that a row of limbs denotes, least significant limb first.
pub open spec fn limbs_value(s: Seq<u32>) -> nat
    decreases s.len(),
{
    if s.len() == 0 {
        0
    } else {
        s[0] as nat + 0x1_0000_0000 * limbs_value(s.drop_first())
    }
}

/// The weight of the limb at position `n`.
spec fn weight(n: nat) -> nat
    decreases n,
{
    if n == 0 {
        1
    } else {
        0x1_0000_0000 * weight((n - 1) as nat)
    }
}

/// A natural number of any size.
pub struct Big {
    limbs: Vec<u32>,
}

impl View for Big {
    type V = nat;

    closed spec fn view(&self) -> nat {
        limbs_value(self.limbs@)
    }
}

proof fn lemma_push(s: Seq<u32>, x: u32)
    ensures
        limbs_value(s.push(x)) == limbs_value(s) + x * weight(s.len()),
    decreases s.len(),
{
    reveal_with_fuel(limbs_value, 2);
    if s.len() == 0 {
        assert(s.push(x).drop_first() == Seq::<u32>::empty());
        assert(weight(s.len()) == 1);
        assert(x * weight(s.len()) == x);
    } else {
        let rest = s.drop_first();
        assert(s.push(x).drop_first() == rest.push(x));
        lemma_push(rest, x);
        let w = weight(rest.len());
        assert(weight(s.len()) == 0x1_0000_0000 * w);
        assert(x * (0x1_0000_0000 * w) == 0x1_0000_0000 * (x * w)) by (nonlinear_arith);
    }
}

/// A row of limbs denotes less than the weight of the position after it.
proof fn lemma_below_weight(s: Seq<u32>)
    ensures
        limbs_value(s) < weight(s.len()),
    decreases s.len(),
{
    if s.len() > 0 {
        lemma_below_weight(s.drop_first());
    }
}

impl Big {
    /// The number `n`.
    pub fn from_u64(n: u64) -> (r: Big)
        ensures
            r@ == n as nat,
    {
        let mut limbs: Vec<u32> = Vec::new();
        limbs.push((n % 0x1_0000_0000) as u32);
        limbs.push((n / 0x1_0000_0000) as u32);
        proof {
            reveal_with_fuel(limbs_value, 3);
            assert(limbs@.drop_first().drop_first() == Seq::<u32>::empty());
        }
        Big { limbs }
    }

    /// `self * m + a`.
    pub fn mul_add(&mut self, m: u32, a: u32)
        ensures
            final(self)@ == old(self)@ * m + a,
    {
        let mut out: Vec<u32> = Vec::new();
        let mut carry: u64 = a as u64;
        let mut i: usize = 0;
        let ghost whole = self.limbs@;
        proof {
            assert(whole.skip(0) == whole);
            assert(1 * (limbs_value(whole) * m + a) == limbs_value(whole) * m + a);
        }
        while i < self.limbs.len()
            invariant
                i <= self.limbs.len(),
                self.limbs@ == whole,
                out.len() == i,
                carry < 0x1_0000_0000,
                limbs_value(out@) + weight(i as nat) * (limbs_value(whole.skip(i as int)) * m
                    + carry) == limbs_value(whole) * m + a,
            decreases self.limbs.len() - i,
        {
            let x: u32 = self.limbs[i];
            assert(x as u64 * m as u64 <= 0xffff_ffffu64 * 0xffff_ffffu64) by (nonlinear_arith)
                requires
                    x <= 0xffff_ffffu32,
                    m <= 0xffff_ffffu32,
            ;
            let t: u64 = x as u64 * m as u64 + carry;
            let low: u32 = (t % 0x1_0000_0000) as u32;
            let high: u64 = t / 0x1_0000_0000;
            proof {
                let rest = whole.skip(i as int + 1);
                assert(whole.skip(i as int).drop_first() == rest);
                lemma_push(out@, low);
                let p = weight(i as nat);
                let v = limbs_value(rest);
                let lhs = p * ((x + 0x1_0000_0000 * v) * m + carry);
                assert((x + 0x1_0000_0000 * v) * m + carry == low + 0x1_0000_0000 * (v * m + high))
                    by (nonlinear_arith)
                    requires
                        x * m + carry == low + 0x1_0000_0000 * high,
                ;
                assert(p * (low + 0x1_0000_0000 * (v * m + high)) == low * p + (0x1_0000_0000 * p) * (
                v * m + high)) by (nonlinear_arith);
            }
            out.push(low);
            carry = high;
            i += 1;
        }
        proof {
            assert(whole.skip(i as int) == Seq::<u32>::empty());
            assert(0 * m + carry == carry);
            lemma_push(out@, carry as u32);
            assert(weight(i as nat) * carry == carry * weight(i as nat)) by (nonlinear_arith);
            assert(0 * weight(i as nat) == 0);
        }
        if carry != 0 {
            out.push(carry as u32);
        }
        self.limbs = out;
    }

    /// `self * 10^k`.
    pub fn scale_ten(&mut self, k: u128)
        ensures
            final(self)@ == old(self)@ * pow(10, k as nat),
    {
        let mut i: u128 = 0;
        proof {
            lemma_pow0(10);
        }
        while i < k
            invariant
                i <= k,
                self@ == old(self)@ * pow(10, i as nat),
            decreases k - i,
        {
            self.mul_add(10, 0);
            proof {
                lemma_pow_adds(10, i as nat, 1);
                vstd::arithmetic::power::lemma_pow1(10);
                let n = old(self)@;
                let p = pow(10, i as nat);
                assert((n * p) * 10 == n * (p * 10)) by (nonlinear_arith);
            }
            i += 1;
        }
    }

    /// `self * 2^k`.
    pub fn scale_two(&mut self, k: u128)
        ensures
            final(self)@ == old(self)@ * pow2(k as nat),
    {
        let mut i: u128 = 0;
        proof {
            lemma2_to64();
        }
        while i < k
            invariant
                i <= k,
                self@ == old(self)@ * pow2(i as nat),
            decreases k - i,
        {
            let ghost n = old(self)@;
            let ghost p = pow2(i as nat);
            if k - i >= 16 {
                self.mul_add(0x1_0000, 0);
                proof {
                    lemma2_to64();
                    lemma_pow2_adds(i as nat, 16);
                    assert((n * p) * 0x1_0000 == n * (p * 0x1_0000)) by (nonlinear_arith);
                }
                i += 16;
            } else {
                self.mul_add(2, 0);
                proof {
                    lemma2_to64();
                    lemma_pow2_adds(i as nat, 1);
                    assert((n * p) * 2 == n * (p * 2)) by (nonlinear_arith);
                }
                i += 1;
            }
        }
    }

    /// The limb at a position, zero beyond the last.
    fn limb(&self, i: usize) -> (x: u32)
        ensures
            x == if i < self.limbs@.len() {
                self.limbs@[i as int]
            } else {
                0u32
            },
    {
        if i < self.limbs.len() {
            self.limbs[i]
        } else {
            0
        }
    }

    /// Whether `self < other`.
    pub fn less(&self, other: &Big) -> (r: bool)
        ensures
            r == (self@ < other@),
    {
        let n = if self.limbs.len() < other.limbs.len() {
            other.limbs.len()
        } else {
            self.limbs.len()
        };
        let mut below = false;
        let mut i: usize = 0;
        let ghost a = padded(self.limbs@, n as nat);
        let ghost b = padded(other.limbs@, n as nat);
        proof {
            lemma_padded(self.limbs@, n as nat);
            lemma_padded(other.limbs@, n as nat);
            assert(a.take(0) == Seq::<u32>::empty());
            assert(b.take(0) == Seq::<u32>::empty());
        }
        while i < n
            invariant
                i <= n,
                a == padded(self.limbs@, n as nat),
                b == padded(other.limbs@, n as nat),
                below == (limbs_value(a.take(i as int)) < limbs_value(b.take(i as int))),
            decreases n - i,
        {
            let x = self.limb(i);
            let y = other.limb(i);
            proof {
                let pa = a.take(i as int);
                let pb = b.take(i as int);
                assert(a.take(i as int + 1) == pa.push(x));
                assert(b.take(i as int + 1) == pb.push(y));
                lemma_push(pa, x);
                lemma_push(pb, y);
                lemma_below_weight(pa);
                lemma_below_weight(pb);
                let w = weight(i as nat);
                let va = limbs_value(pa);
                let vb = limbs_value(pb);
                if x < y {
                    assert(va + x * w < vb + y * w) by (nonlinear_arith)
                        requires
                            x + 1 <= y,
                            va < w,
                            vb >= 0,
                    ;
                } else if y < x {
                    assert(vb + y * w < va + x * w) by (nonlinear_arith)
                        requires
                            y + 1 <= x,
                            vb < w,
                            va >= 0,
                    ;
                }
            }
            if x < y {
                below = true;
            } else if y < x {
                below = false;
            }
            i += 1;
        }
        proof {
            assert(a.take(n as int) == a);
            assert(b.take(n as int) == b);
        }
        below
    }

    /// Divides by ten and gives the remainder.
    fn div_ten(&mut self) -> (d: u8)
        ensures
            d < 10,
            old(self)@ == final(self)@ * 10 + d,
            final(self).limbs@.len() == old(self).limbs@.len(),
    {
        let ghost whole = self.limbs@;
        let mut i: usize = self.limbs.len();
        let mut rem: u64 = 0;
        proof {
            assert(whole.skip(i as int) == Seq::<u32>::empty());
            assert(self.limbs@.skip(i as int) == Seq::<u32>::empty());
        }
        while i > 0
            invariant
                i <= self.limbs.len(),
                self.limbs@.len() == whole.len(),
                rem < 10,
                self.limbs@.take(i as int) == whole.take(i as int),
                limbs_value(whole.skip(i as int)) == limbs_value(self.limbs@.skip(i as int)) * 10
                    + rem,
            decreases i,
        {
            i -= 1;
            let ghost before = self.limbs@;
            let x: u32 = self.limbs[i];
            assert(x == whole[i as int]) by {
                assert(before.take(i as int + 1)[i as int] == whole.take(i as int + 1)[i as int]);
            }
            let t: u64 = rem * 0x1_0000_0000 + x as u64;
            let q: u32 = (t / 10) as u32;
            proof {
                assert(t / 10 < 0x1_0000_0000);
            }
            self.limbs.set(i, q);
            proof {
                assert(whole.skip(i as int).drop_first() == whole.skip(i as int + 1));
                assert(self.limbs@.skip(i as int).drop_first() == before.skip(i as int + 1));
                assert(self.limbs@.take(i as int) == whole.take(i as int)) by {
                    assert(before.take(i as int + 1).take(i as int) == before.take(i as int));
                    assert(whole.take(i as int + 1).take(i as int) == whole.take(i as int));
                    assert(self.limbs@.take(i as int) == before.take(i as int));
                }
            }
            rem = t % 10;
        }
        proof {
            assert(whole.skip(0) == whole);
            assert(self.limbs@.skip(0) == self.limbs@);
        }
        rem as u8
    }

    /// Whether the number is below ten.
    fn is_one_digit(&self) -> (r: bool)
        ensures
            r == (self@ < 10),
    {
        let ten = Big::from_u64(10);
        self.less(&ten)
    }

    /// Appends the number in decimal.
    pub fn push_dec(self, out: &mut String)
        ensures
            final(out)@ == old(out)@ + dec(self@),
        decreases self@,
    {
        let mut rest = self;
        let small = rest.is_one_digit();
        let d = rest.div_ten();
        if small {
            out.push(char_of_digit(d));
            assert(out@ == old(out)@ + dec(self@));
        } else {
            rest.push_dec(out);
            out.push(char_of_digit(d));
            assert(out@ == old(out)@ + dec(self@));
        }
    }
}

/// A row of limbs filled up with zeros to a length.
spec fn padded(s: Seq<u32>, n: nat) -> Seq<u32> {
    Seq::new(
        n,
        |i: int|
            if i < s.len() {
                s[i]
            } else {
                0u32
            },
    )
}

proof fn lemma_zeros(s: Seq<u32>)
    requires
        forall|i: int| 0 <= i < s.len() ==> s[i] == 0,
    ensures
        limbs_value(s) == 0,
    decreases s.len(),
{
    if s.len() > 0 {
        lemma_zeros(s.drop_first());
    }
}

proof fn lemma_padded(s: Seq<u32>, n: nat)
    requires
        s.len() <= n,
    ensures
        limbs_value(padded(s, n)) == limbs_value(s),
    decreases s.len(),
{
    let p = padded(s, n);
    if s.len() == 0 {
        lemma_zeros(p);
    } else {
        lemma_padded(s.drop_first(), (n - 1) as nat);
        assert(p.drop_first() == padded(s.drop_first(), (n - 1) as nat));
    }
}

} // verus!
