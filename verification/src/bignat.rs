//! Natural numbers of any size, for the products that the entropy test
//! compares.

use vstd::prelude::*;

verus! {

/// The base of the digits: 2 to the power 64.
pub open spec fn base() -> nat {
    0x1_0000_0000_0000_0000
}

/// The base to the power `k`.
pub open spec fn base_pow(k: nat) -> nat
    decreases k,
{
    if k == 0 {
        1
    } else {
        base() * base_pow((k - 1) as nat)
    }
}

/// The digit of `s` at index `i`: zero beyond its end.
pub open spec fn digit(s: Seq<u64>, i: int) -> nat {
    if 0 <= i < s.len() {
        s[i] as nat
    } else {
        0
    }
}

/// The number that the first `k` digits of `s` stand for, the least
/// significant digit first.
pub open spec fn digits_value(s: Seq<u64>, k: nat) -> nat
    decreases k,
{
    if k == 0 {
        0
    } else {
        digits_value(s, (k - 1) as nat) + digit(s, k - 1) * base_pow((k - 1) as nat)
    }
}

/// A natural number of any size.
#[derive(Debug)]
pub struct BigNat {
    limbs: Vec<u64>,
}

/// How one quantity stands to another.
#[derive(Debug, Clone, Copy, PartialEq, Eq, Structural)]
pub enum Level {
    Below,
    Equal,
    Above,
}

/// How `a` stands to `b`.
pub open spec fn level_of(a: int, b: int) -> Level {
    if a < b {
        Level::Below
    } else if a == b {
        Level::Equal
    } else {
        Level::Above
    }
}

/// `b` to the power `e`.
pub open spec fn power(b: nat, e: nat) -> nat
    decreases e,
{
    if e == 0 {
        1
    } else {
        power(b, (e - 1) as nat) * b
    }
}

/// The first `k` digits stand for a number below the base to the power `k`.
proof fn lemma_digits_bound(s: Seq<u64>, k: nat)
    ensures
        digits_value(s, k) < base_pow(k),
    decreases k,
{
    if k > 0 {
        let j = (k - 1) as nat;
        lemma_digits_bound(s, j);
        let d = digit(s, j as int);
        let w = base_pow(j);
        assert(d * w + w <= base() * w) by (nonlinear_arith)
            requires
                d + 1 <= base(),
                w >= 0,
        ;
    }
}

/// Sequences with the same first `k` digits stand, on those digits, for the
/// same number.
proof fn lemma_digits_agree(a: Seq<u64>, b: Seq<u64>, k: nat)
    requires
        forall|i: int| 0 <= i < k ==> digit(a, i) == digit(b, i),
    ensures
        digits_value(a, k) == digits_value(b, k),
    decreases k,
{
    if k > 0 {
        lemma_digits_agree(a, b, (k - 1) as nat);
    }
}

/// Digits beyond the end add nothing.
proof fn lemma_digits_beyond(s: Seq<u64>, k: nat)
    requires
        k >= s.len(),
    ensures
        digits_value(s, k) == digits_value(s, s.len()),
    decreases k,
{
    if k > s.len() {
        lemma_digits_beyond(s, (k - 1) as nat);
        assert(digit(s, k - 1) == 0);
        assert(0 * base_pow((k - 1) as nat) == 0);
    }
}

/// Where `a` and `b` have the same digits from `i + 1` up to `k` and `a` has
/// the larger digit at `i`, `a` stands for the larger number.
proof fn lemma_digits_decide(a: Seq<u64>, b: Seq<u64>, i: nat, k: nat)
    requires
        i < k,
        forall|j: int| i < j < k ==> digit(a, j) == digit(b, j),
        digit(a, i as int) > digit(b, i as int),
    ensures
        digits_value(a, k) > digits_value(b, k),
    decreases k,
{
    if k == i + 1 {
        lemma_digits_bound(b, i);
        let da = digit(a, i as int);
        let db = digit(b, i as int);
        let w = base_pow(i);
        assert(da * w >= db * w + w) by (nonlinear_arith)
            requires
                da >= db + 1,
                w >= 0,
        ;
    } else {
        lemma_digits_decide(a, b, i, (k - 1) as nat);
    }
}

impl BigNat {
    /// The number that `self` stands for.
    pub closed spec fn value(&self) -> nat {
        digits_value(self.limbs@, self.limbs@.len())
    }

    /// The number `n`.
    pub fn from_u64(n: u64) -> (r: Self)
        ensures
            r.value() == n,
    {
        let mut limbs: Vec<u64> = Vec::new();
        limbs.push(n);
        proof {
            assert(base_pow(0) == 1);
            assert(digits_value(limbs@, 0) == 0);
            assert(digit(limbs@, 0) * base_pow(0) == n) by (nonlinear_arith)
                requires
                    digit(limbs@, 0) == n,
                    base_pow(0) == 1,
            ;
            assert(digits_value(limbs@, 1) == digits_value(limbs@, 0) + digit(limbs@, 0)
                * base_pow(0));
        }
        BigNat { limbs }
    }

    /// Multiplies `self` by `m`.
    pub fn mul_small(&mut self, m: u64)
        ensures
            final(self).value() == old(self).value() * m,
    {
        let n: usize = self.limbs.len();
        let mut out: Vec<u64> = Vec::new();
        let mut carry: u64 = 0;
        let mut i: usize = 0;
        proof {
            assert(digits_value(out@, 0) == 0);
            assert(digits_value(self.limbs@, 0) == 0);
            assert(0 * base_pow(0) == 0);
            assert(0 * m == 0);
        }
        while i < n
            invariant
                i <= n,
                n == self.limbs@.len(),
                out@.len() == i,
                *self == *old(self),
                digits_value(out@, i as nat) + carry * base_pow(i as nat) == digits_value(
                    self.limbs@,
                    i as nat,
                ) * m,
            decreases n - i,
        {
            let limb: u64 = self.limbs[i];
            assert(limb * m + carry <= 0xffff_ffff_ffff_ffff * 0x1_0000_0000_0000_0000)
                by (nonlinear_arith)
                requires
                    limb <= 0xffff_ffff_ffff_ffff,
                    m <= 0xffff_ffff_ffff_ffff,
                    carry <= 0xffff_ffff_ffff_ffff,
            ;
            let cur: u128 = (limb as u128) * (m as u128) + (carry as u128);
            let low: u64 = (cur % 0x1_0000_0000_0000_0000u128) as u64;
            let high: u64 = (cur / 0x1_0000_0000_0000_0000u128) as u64;
            let ghost before = out@;
            out.push(low);
            proof {
                let w = base_pow(i as nat);
                let p = digits_value(self.limbs@, i as nat);
                lemma_digits_agree(before, out@, i as nat);
                assert(digit(out@, i as int) == low);
                assert(digit(self.limbs@, i as int) == limb);
                assert(cur == low + base() * high);
                assert(base_pow((i + 1) as nat) == base() * w);
                assert(digits_value(out@, (i + 1) as nat) + high * (base() * w) == (p + limb * w)
                    * m) by (nonlinear_arith)
                    requires
                        digits_value(out@, (i + 1) as nat) == digits_value(before, i as nat) + low
                            * w,
                        digits_value(before, i as nat) + carry * w == p * m,
                        limb * m + carry == low + base() * high,
                ;
            }
            carry = high;
            i += 1;
        }
        if carry > 0 {
            let ghost before = out@;
            out.push(carry);
            proof {
                lemma_digits_agree(before, out@, n as nat);
                assert(digit(out@, n as int) == carry);
            }
        } else {
            assert(carry * base_pow(n as nat) == 0);
        }
        self.limbs = out;
    }

    /// Multiplies `self` by `b` to the power `e`.
    pub fn mul_power(&mut self, b: u64, e: u32)
        ensures
            final(self).value() == old(self).value() * power(b as nat, e as nat),
    {
        let mut i: u32 = 0;
        let ghost start = self.value();
        assert(start * power(b as nat, 0) == start) by (nonlinear_arith)
            requires
                power(b as nat, 0) == 1,
        ;
        while i < e
            invariant
                i <= e,
                start == old(self).value(),
                self.value() == start * power(b as nat, i as nat),
            decreases e - i,
        {
            let ghost p = power(b as nat, i as nat);
            self.mul_small(b);
            proof {
                assert(power(b as nat, (i + 1) as nat) == p * b);
                assert(start * p * b == start * (p * b)) by (nonlinear_arith);
            }
            i += 1;
        }
    }

    /// How `self` stands to `other`.
    pub fn level(&self, other: &BigNat) -> (r: Level)
        ensures
            r == level_of(self.value() as int, other.value() as int),
    {
        let la: usize = self.limbs.len();
        let lb: usize = other.limbs.len();
        let n: usize = if la > lb {
            la
        } else {
            lb
        };
        proof {
            lemma_digits_beyond(self.limbs@, n as nat);
            lemma_digits_beyond(other.limbs@, n as nat);
        }
        let mut i: usize = n;
        while i > 0
            invariant
                i <= n,
                la == self.limbs@.len(),
                lb == other.limbs@.len(),
                self.value() == digits_value(self.limbs@, n as nat),
                other.value() == digits_value(other.limbs@, n as nat),
                forall|j: int| i <= j < n ==> digit(self.limbs@, j) == digit(other.limbs@, j),
            decreases i,
        {
            i -= 1;
            let a: u64 = if i < la {
                self.limbs[i]
            } else {
                0
            };
            let b: u64 = if i < lb {
                other.limbs[i]
            } else {
                0
            };
            if a > b {
                proof {
                    lemma_digits_decide(self.limbs@, other.limbs@, i as nat, n as nat);
                }
                return Level::Above;
            }
            if a < b {
                proof {
                    lemma_digits_decide(other.limbs@, self.limbs@, i as nat, n as nat);
                }
                return Level::Below;
            }
        }
        proof {
            lemma_digits_agree(self.limbs@, other.limbs@, n as nat);
        }
        Level::Equal
    }
}

} // verus!
