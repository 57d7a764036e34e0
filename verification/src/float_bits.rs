//! Floating-point numbers as the bits that hold them, and the order that the numbers have.
//!
//! Latencies and thresholds reach the library as the bits of double-precision numbers. The library
//! does no arithmetic on them; it only compares.

use vstd::arithmetic::power2::pow2;
use vstd::prelude::*;

verus! {

/// The bits of the sign.
pub const SIGN: u64 = 0x8000_0000_0000_0000;

/// The bits of positive infinity.
pub const INFINITY: u64 = 0x7ff0_0000_0000_0000;

/// The bits below the sign: exponent and fraction.
pub open spec fn magnitude(bits: u64) -> int {
    if bits >= SIGN {
        bits - SIGN
    } else {
        bits as int
    }
}

/// Whether bits hold no number.
pub open spec fn is_nan(bits: u64) -> bool {
    magnitude(bits) > INFINITY
}

/// A whole number that orders the numbers that bits hold. Both zeros have the same.
pub open spec fn order(bits: u64) -> int {
    if bits >= SIGN {
        -magnitude(bits)
    } else {
        magnitude(bits)
    }
}

/// Whether the number in `a` is greater than that in `b`. Nothing is greater than what is no
/// number, nor the other way round.
pub open spec fn greater(a: u64, b: u64) -> bool {
    !is_nan(a) && !is_nan(b) && order(a) > order(b)
}

/// Whether the number in `a` is greater than that in `b`.
pub fn is_greater(a: u64, b: u64) -> (r: bool)
    ensures
        r == greater(a, b),
{
    let a_size: u64 = if a >= SIGN {
        a - SIGN
    } else {
        a
    };
    let b_size: u64 = if b >= SIGN {
        b - SIGN
    } else {
        b
    };
    if a_size > INFINITY || b_size > INFINITY {
        return false;
    }
    if a >= SIGN {
        b >= SIGN && a_size < b_size
    } else if b >= SIGN {
        a_size > 0 || b_size > 0
    } else {
        a_size > b_size
    }
}

/// The fraction and exponent fields of a magnitude.
pub open spec fn fraction(magnitude: int) -> int {
    magnitude % 0x10_0000_0000_0000
}

/// The exponent field of a magnitude.
pub open spec fn exponent(magnitude: int) -> int {
    magnitude / 0x10_0000_0000_0000
}

/// The size of a finite number, in units of the smallest positive one.
pub open spec fn size(magnitude: int) -> int {
    if exponent(magnitude) == 0 {
        fraction(magnitude)
    } else {
        (fraction(magnitude) + 0x10_0000_0000_0000) * pow2((exponent(magnitude) - 1) as nat)
    }
}

/// The value of a finite number, in units of the smallest positive one.
pub open spec fn value(bits: u64) -> int {
    if bits >= SIGN {
        -size(magnitude(bits))
    } else {
        size(magnitude(bits))
    }
}

proof fn lemma_size_nonneg(m: int)
    requires
        0 <= m,
    ensures
        0 <= size(m),
        size(m) == 0 <==> m == 0,
{
    let e = exponent(m);
    let f = fraction(m);
    if e != 0 {
        let p = pow2((e - 1) as nat) as int;
        vstd::arithmetic::power2::lemma_pow2_pos((e - 1) as nat);
        assert((f + 0x10_0000_0000_0000) * p > 0) by (nonlinear_arith)
            requires
                f >= 0,
                p > 0,
        ;
    }
}

proof fn lemma_size_increases(a: int, b: int)
    requires
        0 <= a < b,
    ensures
        size(a) < size(b),
{
    let one = 0x10_0000_0000_0000int;
    let ea = exponent(a);
    let eb = exponent(b);
    let fa = fraction(a);
    let fb = fraction(b);
    assert(ea <= eb);
    if eb == 0 {
    } else {
        let pb = pow2((eb - 1) as nat) as int;
        vstd::arithmetic::power2::lemma_pow2_pos((eb - 1) as nat);
        if ea == eb {
            assert((fa + one) * pb < (fb + one) * pb) by (nonlinear_arith)
                requires
                    fa < fb,
                    pb > 0,
            ;
        } else if ea == 0 {
            assert(one <= (fb + one) * pb) by (nonlinear_arith)
                requires
                    fb >= 0,
                    pb >= 1,
                    one >= 0,
            ;
        } else {
            let pa = pow2((ea - 1) as nat) as int;
            vstd::arithmetic::power2::lemma_pow2_pos((ea - 1) as nat);
            vstd::arithmetic::power2::lemma_pow2_unfold(ea as nat);
            assert(pow2(ea as nat) == 2 * pa);
            if ea < eb - 1 {
                vstd::arithmetic::power2::lemma_pow2_strictly_increases(ea as nat, (eb - 1) as nat);
            }
            assert(2 * pa <= pb);
            assert((fa + one) * pa < (fb + one) * pb) by (nonlinear_arith)
                requires
                    0 <= fa < one,
                    0 <= fb,
                    pa > 0,
                    2 * pa <= pb,
            ;
        }
    }
}

/// The order on bits is the order of the numbers: of two finite numbers, one is greater than the
/// other exactly where its value is.
pub proof fn law_order_is_that_of_values(a: u64, b: u64)
    requires
        magnitude(a) < INFINITY,
        magnitude(b) < INFINITY,
    ensures
        greater(a, b) <==> value(a) > value(b),
{
    let x = magnitude(a);
    let y = magnitude(b);
    lemma_size_nonneg(x);
    lemma_size_nonneg(y);
    if x < y {
        lemma_size_increases(x, y);
    }
    if y < x {
        lemma_size_increases(y, x);
    }
}

/// The order by the bits themselves. Positive numbers are ordered as their bits, up to infinity,
/// and negative ones the other way round; any positive number is greater than any negative one, but
/// the two zeros are equal; and what is no number is neither greater nor less than anything.
pub proof fn law_order_by_bits(a: u64, b: u64, r: bool)
    requires
        call_ensures(is_greater, (a, b), r),
    ensures
        ({
            let infinity = 0x7ff0_0000_0000_0000u64;
            let zero = 0x8000_0000_0000_0000u64;
            let last = 0xfff0_0000_0000_0000u64;
            let positive = |x: u64| x <= infinity;
            let negative = |x: u64| zero <= x <= last;
            &&& positive(a) && positive(b) ==> r == (a > b)
            &&& negative(a) && negative(b) ==> r == (a < b)
            &&& positive(a) && negative(b) ==> r == !(a == 0 && b == zero)
            &&& negative(a) && positive(b) ==> !r
            &&& !positive(a) && !negative(a) ==> !r
            &&& !positive(b) && !negative(b) ==> !r
        }),
        r == greater(a, b),
{
}

} // verus!
