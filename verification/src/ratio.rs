use vstd::prelude::*;

verus! {

/// The quotient `num / den` of two integers, read as a floating-point
/// division would read it: with `den == 0`, the value is not a number when
/// `num == 0`, plus infinity when `num > 0` and minus infinity when `num < 0`.
#[derive(Debug, Clone, Copy)]
pub struct Ratio {
    pub num: i64,
    pub den: u64,
}

/// Where a value stands among minus infinity (0), the finite values (1) and
/// plus infinity (2).
pub open spec fn rank(r: Ratio) -> int {
    if r.den > 0 {
        1
    } else if r.num < 0 {
        0
    } else {
        2
    }
}

impl Ratio {
    pub open spec fn is_nan(self) -> bool {
        self.den == 0 && self.num == 0
    }

    pub open spec fn is_finite(self) -> bool {
        self.den > 0
    }

    /// `self < other`, as a comparison of two floating-point values: false
    /// whenever one of them is not a number.
    pub open spec fn less_than(self, other: Ratio) -> bool {
        if self.is_nan() || other.is_nan() {
            false
        } else if self.is_finite() && other.is_finite() {
            self.num * other.den < other.num * self.den
        } else {
            rank(self) < rank(other)
        }
    }

    /// `self >= other`, as a comparison of two floating-point values: false
    /// whenever one of them is not a number.
    pub open spec fn at_least(self, other: Ratio) -> bool {
        !self.is_nan() && !other.is_nan() && !self.less_than(other)
    }

    /// Minus infinity.
    pub fn neg_infinity() -> (r: Ratio)
        ensures
            r == (Ratio { num: -1i64, den: 0u64 }),
    {
        Ratio { num: -1, den: 0 }
    }

    /// The ratio `n / 1`.
    pub fn from_int(n: i64) -> (r: Ratio)
        ensures
            r.num == n,
            r.den == 1,
    {
        Ratio { num: n, den: 1 }
    }

    pub fn is_not_a_number(&self) -> (b: bool)
        ensures
            b == self.is_nan(),
    {
        self.den == 0 && self.num == 0
    }

    /// `self < other`.
    pub fn lt(&self, other: &Ratio) -> (b: bool)
        ensures
            b == self.less_than(*other),
    {
        if self.is_not_a_number() || other.is_not_a_number() {
            false
        } else if self.den > 0 && other.den > 0 {
            proof {
                lemma_cross_product_bound(self.num as int, other.den as int);
                lemma_cross_product_bound(other.num as int, self.den as int);
            }
            let a: i128 = (self.num as i128) * (other.den as i128);
            let b: i128 = (other.num as i128) * (self.den as i128);
            a < b
        } else {
            let rs: u8 = if self.den > 0 {
                1
            } else if self.num < 0 {
                0
            } else {
                2
            };
            let ro: u8 = if other.den > 0 {
                1
            } else if other.num < 0 {
                0
            } else {
                2
            };
            rs < ro
        }
    }

    /// `self >= other`.
    pub fn ge(&self, other: &Ratio) -> (b: bool)
        ensures
            b == self.at_least(*other),
    {
        !self.is_not_a_number() && !other.is_not_a_number() && !self.lt(other)
    }
}

proof fn lemma_cross_product_bound(n: int, d: int)
    requires
        i64::MIN <= n <= i64::MAX,
        0 <= d <= u64::MAX,
    ensures
        i128::MIN <= n * d <= i128::MAX,
{
    assert(-0x8000_0000_0000_0000_0000_0000_0000_0000 <= n * d <= 0x7fff_ffff_ffff_ffff_ffff_ffff_ffff_ffff) by (nonlinear_arith)
        requires
            -0x8000_0000_0000_0000 <= n <= 0x7fff_ffff_ffff_ffff,
            0 <= d <= 0xffff_ffff_ffff_ffff,
    {
        if n >= 0 {
            assert(n * d <= 0x7fff_ffff_ffff_ffff * d);
            assert(0x7fff_ffff_ffff_ffff * d <= 0x7fff_ffff_ffff_ffff * 0xffff_ffff_ffff_ffff);
        } else {
            assert(n * d >= -0x8000_0000_0000_0000 * d);
            assert(-0x8000_0000_0000_0000 * d >= -0x8000_0000_0000_0000 * 0xffff_ffff_ffff_ffff);
        }
    }
}

/// On values that are numbers, `less_than` is a strict order: irreflexive and
/// transitive, and any two values compare one way, the other, or are equal in
/// value.
pub proof fn lemma_less_than_strict_order(a: Ratio, b: Ratio, c: Ratio)
    ensures
        !a.less_than(a),
        a.less_than(b) && b.less_than(c) ==> a.less_than(c),
        !a.is_nan() && !b.is_nan() ==> (a.less_than(b) || b.less_than(a) || (a.at_least(b)
            && b.at_least(a))),
{
    if a.less_than(b) && b.less_than(c) && a.is_finite() && b.is_finite() && c.is_finite() {
        let (an, ad, bn, bd, cn, cd) = (
            a.num as int,
            a.den as int,
            b.num as int,
            b.den as int,
            c.num as int,
            c.den as int,
        );
        assert(an * cd < cn * ad) by (nonlinear_arith)
            requires
                an * bd < bn * ad,
                bn * cd < cn * bd,
                ad > 0,
                bd > 0,
                cd > 0,
        {
            assert(an * bd * cd < bn * ad * cd);
            assert(bn * cd * ad < cn * bd * ad);
            assert(an * cd * bd < cn * ad * bd);
        }
    }
}

} // verus!
