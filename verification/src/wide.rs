//! Unsigned 256-bit integers: enough room for a sum of squared nanosecond
//! counts, which 128 bits cannot hold.

use vstd::arithmetic::div_mod::lemma_fundamental_div_mod;
use vstd::arithmetic::div_mod::lemma_fundamental_div_mod_converse;
use vstd::arithmetic::div_mod::lemma_mod_bound;
use vstd::prelude::*;

verus! {

/// Two to the power 64: the base of the four digits of a `Wide`.
pub const BASE: u128 = 0x1_0000_0000_0000_0000;

/// Two to the power 256: the first number a `Wide` cannot hold.
pub open spec fn wide_limit() -> nat {
    0x1_0000_0000_0000_0000_0000_0000_0000_0000_0000_0000_0000_0000_0000_0000_0000_0000nat
}

/// An unsigned 256-bit integer, held as two 128-bit halves.
#[derive(Clone, Copy, Debug)]
pub struct Wide {
    pub hi: u128,
    pub lo: u128,
}

impl View for Wide {
    type V = nat;

    open spec fn view(&self) -> nat {
        self.hi as nat * 0x1_0000_0000_0000_0000_0000_0000_0000_0000nat + self.lo as nat
    }
}

/// The product of two digits fits in 128 bits.
proof fn lemma_digit_product(x: nat, y: nat)
    by (nonlinear_arith)
    requires
        x < 0x1_0000_0000_0000_0000,
        y < 0x1_0000_0000_0000_0000,
    ensures
        x * y <= 0xFFFF_FFFF_FFFF_FFFE_0000_0000_0000_0001,
{
}

/// A product of two two-digit numbers, written out by digits.
proof fn lemma_expand_product(a1: int, a0: int, b1: int, b0: int)
    ensures
        (a1 * 0x1_0000_0000_0000_0000 + a0) * (b1 * 0x1_0000_0000_0000_0000 + b0) == (a1 * b1)
            * 0x1_0000_0000_0000_0000_0000_0000_0000_0000int + (a0 * b1) * 0x1_0000_0000_0000_0000
            + (a1 * b0) * 0x1_0000_0000_0000_0000 + a0 * b0,
{
    let base: int = 0x1_0000_0000_0000_0000;
    let x = a1 * base;
    let y = b1 * base;
    assert((x + a0) * (y + b0) == x * y + x * b0 + a0 * y + a0 * b0) by (nonlinear_arith);
    assert(x * y == (a1 * b1) * (base * base)) by (nonlinear_arith)
        requires
            x == a1 * base,
            y == b1 * base,
    ;
    assert(x * b0 == (a1 * b0) * base) by (nonlinear_arith)
        requires
            x == a1 * base,
    ;
    assert(a0 * y == (a0 * b1) * base) by (nonlinear_arith)
        requires
            y == b1 * base,
    ;
    assert(base * base == 0x1_0000_0000_0000_0000_0000_0000_0000_0000int);
}

/// One step of long division: a remainder and the next digit, divided by `d`,
/// give a quotient digit.
proof fn lemma_division_step(carry: nat, digit: nat, d: nat, base: nat)
    by (nonlinear_arith)
    requires
        0 < d <= base,
        carry < d,
        digit < base,
    ensures
        carry * base + digit < d * base,
        carry * base + digit < base * base,
        (carry * base + digit) / d < base,
{
    let c = carry * base + digit;
    assert(c <= (d - 1) * base + (base - 1));
    assert(c < d * base);
    assert(d * base <= base * base);
    if c / d >= base {
        assert(d * (c / d) >= d * base);
        assert(c == d * (c / d) + c % d);
        assert(c % d >= 0);
    }
}

impl Wide {
    /// The 256-bit value of a 128-bit number.
    pub fn from_u128(x: u128) -> (w: Wide)
        ensures
            w@ == x,
    {
        Wide { hi: 0, lo: x }
    }

    /// The full product of two 128-bit numbers.
    pub fn product(a: u128, b: u128) -> (p: Wide)
        ensures
            p@ == a as nat * b as nat,
    {
        let a1: u128 = a / BASE;
        let a0: u128 = a % BASE;
        let b1: u128 = b / BASE;
        let b0: u128 = b % BASE;
        proof {
            lemma_digit_product(a0 as nat, b0 as nat);
            lemma_digit_product(a0 as nat, b1 as nat);
            lemma_digit_product(a1 as nat, b0 as nat);
            lemma_digit_product(a1 as nat, b1 as nat);
        }
        let p00: u128 = a0 * b0;
        let p01: u128 = a0 * b1;
        let p10: u128 = a1 * b0;
        let p11: u128 = a1 * b1;
        let mid: u128 = p00 / BASE + p01 % BASE + p10 % BASE;
        let lo: u128 = (mid % BASE) * BASE + p00 % BASE;
        let hi: u128 = p11 + p01 / BASE + p10 / BASE + mid / BASE;
        proof {
            lemma_expand_product(a1 as int, a0 as int, b1 as int, b0 as int);
        }
        Wide { hi, lo }
    }

    /// The sum of two numbers, where it fits.
    pub fn plus(self, other: Wide) -> (s: Wide)
        requires
            self@ + other@ < wide_limit(),
        ensures
            s@ == self@ + other@,
    {
        if self.lo <= u128::MAX - other.lo {
            Wide { hi: self.hi + other.hi, lo: self.lo + other.lo }
        } else {
            let lo: u128 = self.lo - (u128::MAX - other.lo) - 1;
            Wide { hi: self.hi + other.hi + 1, lo }
        }
    }

    /// Whether `self` is at most `other`.
    pub fn at_most(self, other: Wide) -> (b: bool)
        ensures
            b == (self@ <= other@),
    {
        self.hi < other.hi || (self.hi == other.hi && self.lo <= other.lo)
    }

    /// The quotient of `self` by a 64-bit divisor, rounded down.
    pub fn divided_by(self, d: u64) -> (q: Wide)
        requires
            d > 0,
        ensures
            q@ == self@ / (d as nat),
    {
        let dd: u128 = d as u128;
        let x3: u128 = self.hi / BASE;
        let x2: u128 = self.hi % BASE;
        let x1: u128 = self.lo / BASE;
        let x0: u128 = self.lo % BASE;

        let q3: u128 = x3 / dd;
        let r3: u128 = x3 % dd;
        proof {
            lemma_fundamental_div_mod(x3 as int, dd as int);
            lemma_mod_bound(x3 as int, dd as int);
            lemma_division_step(r3 as nat, x2 as nat, dd as nat, BASE as nat);
        }
        let c2: u128 = r3 * BASE + x2;
        let q2: u128 = c2 / dd;
        let r2: u128 = c2 % dd;
        proof {
            lemma_fundamental_div_mod(c2 as int, dd as int);
            lemma_mod_bound(c2 as int, dd as int);
            lemma_division_step(r2 as nat, x1 as nat, dd as nat, BASE as nat);
        }
        let c1: u128 = r2 * BASE + x1;
        let q1: u128 = c1 / dd;
        let r1: u128 = c1 % dd;
        proof {
            lemma_fundamental_div_mod(c1 as int, dd as int);
            lemma_mod_bound(c1 as int, dd as int);
            lemma_division_step(r1 as nat, x0 as nat, dd as nat, BASE as nat);
        }
        let c0: u128 = r1 * BASE + x0;
        let q0: u128 = c0 / dd;
        let r0: u128 = c0 % dd;
        proof {
            lemma_fundamental_div_mod(c0 as int, dd as int);
            lemma_mod_bound(c0 as int, dd as int);
        }
        let q = Wide { hi: q3 * BASE + q2, lo: q1 * BASE + q0 };
        proof {
            let b = BASE as int;
            let total = q@ as int;
            assert(total == ((q3 * b + q2) * b + q1) * b + q0);
            assert(self@ as int == ((x3 * b + x2) * b + x1) * b + x0);
            assert(self@ as int == total * dd + r0) by (nonlinear_arith)
                requires
                    total == ((q3 * b + q2) * b + q1) * b + q0,
                    self@ as int == ((x3 * b + x2) * b + x1) * b + x0,
                    x3 == dd * q3 + r3,
                    r3 * b + x2 == dd * q2 + r2,
                    r2 * b + x1 == dd * q1 + r1,
                    r1 * b + x0 == dd * q0 + r0,
            ;
            lemma_fundamental_div_mod_converse(self@ as int, dd as int, total, r0 as int);
        }
        q
    }

    /// The square root of `self`, rounded down.
    pub fn floor_sqrt(self) -> (r: u128)
        ensures
            r as nat * r as nat <= self@,
            self@ < (r as nat + 1) * (r as nat + 1),
    {
        let mut low: u128 = 0;
        let mut high: u128 = u128::MAX;
        proof {
            assert((high as nat + 1) * (high as nat + 1) == wide_limit()) by (nonlinear_arith)
                requires
                    high == 0xFFFF_FFFF_FFFF_FFFF_FFFF_FFFF_FFFF_FFFF,
            ;
            assert(low as nat * low as nat == 0);
        }
        while low < high
            invariant
                low <= high,
                low as nat * low as nat <= self@,
                self@ < (high as nat + 1) * (high as nat + 1),
            decreases high - low,
        {
            let gap: u128 = high - low;
            let middle: u128 = low + gap / 2 + gap % 2;
            let square = Wide::product(middle, middle);
            if square.at_most(self) {
                low = middle;
            } else {
                high = middle - 1;
                assert(high as nat + 1 == middle as nat);
            }
        }
        low
    }
}

} // verus!
