//! Doubles that are not NaN, carried by their bit patterns.
//!
//! A pattern has a sign bit, eleven exponent bits and fifty-two fraction bits.
//! Its value is modelled exactly as an integer, counted in units of 2^-1074 (the
//! smallest positive double). The two infinities have no such value; the model
//! places them one binade beyond the largest finite double, which keeps them
//! above and below everything else.

use vstd::prelude::*;
use vstd::arithmetic::power2::*;

verus! {

/// The sign bit of a pattern.
pub const SIGN_BIT: u64 = 0x8000_0000_0000_0000;

/// The pattern of positive infinity: every larger magnitude is a NaN.
pub const INFINITY_BITS: u64 = 0x7FF0_0000_0000_0000;

/// The number of fractions in one binade, 2^52.
pub const BINADE: u64 = 0x0010_0000_0000_0000;

/// The pattern of 1.0.
pub const ONE_BITS: u64 = 0x3FF0_0000_0000_0000;

/// The pattern of -1.0.
pub const MINUS_ONE_BITS: u64 = 0xBFF0_0000_0000_0000;

/// The pattern of the largest finite double.
pub const MAX_BITS: u64 = 0x7FEF_FFFF_FFFF_FFFF;

/// The pattern without its sign bit.
pub open spec fn magnitude(bits: u64) -> int {
    (bits % SIGN_BIT) as int
}

/// Whether the sign bit is set.
pub open spec fn is_negative(bits: u64) -> bool {
    bits >= SIGN_BIT
}

/// Whether the pattern is one of the NaNs.
pub open spec fn is_nan(bits: u64) -> bool {
    magnitude(bits) > INFINITY_BITS
}

/// The magnitude with its sign: the integer by which patterns are compared.
pub open spec fn signed_magnitude(bits: u64) -> int {
    if is_negative(bits) {
        -magnitude(bits)
    } else {
        magnitude(bits)
    }
}

/// The absolute value that a magnitude denotes, in units of 2^-1074.
pub open spec fn magnitude_value(mag: int) -> int {
    let exponent = mag / (BINADE as int);
    let fraction = mag % (BINADE as int);
    if exponent == 0 {
        fraction
    } else {
        (BINADE + fraction) * pow2((exponent - 1) as nat)
    }
}

/// The value that a pattern denotes, in units of 2^-1074.
pub open spec fn value(bits: u64) -> int {
    if is_negative(bits) {
        -magnitude_value(magnitude(bits))
    } else {
        magnitude_value(magnitude(bits))
    }
}

/// A larger magnitude denotes a larger absolute value.
pub proof fn lemma_magnitude_value_increases(a: int, b: int)
    requires
        0 <= a < b,
    ensures
        magnitude_value(a) < magnitude_value(b),
{
    let ea = a / (BINADE as int);
    let fa = a % (BINADE as int);
    let eb = b / (BINADE as int);
    let fb = b % (BINADE as int);
    if ea == eb {
        if ea != 0 {
            let p = pow2((ea - 1) as nat) as int;
            lemma_pow2_pos((ea - 1) as nat);
            assert((BINADE + fa) * p < (BINADE + fb) * p) by (nonlinear_arith)
                requires
                    fa < fb,
                    p > 0,
            ;
        }
    } else {
        let q = pow2((eb - 1) as nat) as int;
        lemma_pow2_pos((eb - 1) as nat);
        assert(BINADE * q <= (BINADE + fb) * q) by (nonlinear_arith)
            requires
                fb >= 0,
                q > 0,
        ;
        if ea == 0 {
            assert(BINADE * 1 <= BINADE * q) by (nonlinear_arith)
                requires
                    q >= 1,
            ;
        } else {
            let p = pow2((ea - 1) as nat) as int;
            lemma_pow2_pos((ea - 1) as nat);
            lemma_pow2_unfold(ea as nat);
            if ea < eb - 1 {
                lemma_pow2_strictly_increases(ea as nat, (eb - 1) as nat);
            }
            let pa = pow2(ea as nat) as int;
            assert((BINADE + fa) * p < BINADE * pa) by (nonlinear_arith)
                requires
                    fa < BINADE,
                    p > 0,
                    pa == 2 * p,
            ;
            assert(BINADE * pa <= BINADE * q) by (nonlinear_arith)
                requires
                    pa <= q,
            ;
        }
    }
}

/// Only the magnitude zero denotes the value zero.
pub proof fn lemma_magnitude_value_zero(a: int)
    requires
        0 <= a,
    ensures
        magnitude_value(a) >= 0,
        magnitude_value(a) == 0 <==> a == 0,
{
    if a > 0 {
        lemma_magnitude_value_increases(0, a);
    }
}

/// Patterns are ordered by their values exactly as by their signed magnitudes;
/// the two zeros are equal.
pub proof fn lemma_value_order(a: u64, b: u64)
    ensures
        value(a) < value(b) <==> signed_magnitude(a) < signed_magnitude(b),
        value(a) == value(b) <==> signed_magnitude(a) == signed_magnitude(b),
{
    let ma = magnitude(a);
    let mb = magnitude(b);
    lemma_magnitude_value_zero(ma);
    lemma_magnitude_value_zero(mb);
    if ma < mb {
        lemma_magnitude_value_increases(ma, mb);
    }
    if mb < ma {
        lemma_magnitude_value_increases(mb, ma);
    }
}

/// The double 1.0 is 2^1074 units.
pub proof fn lemma_value_of_one()
    ensures
        value(ONE_BITS) == pow2(1074),
        value(MINUS_ONE_BITS) == -pow2(1074),
        value(0) == 0,
{
    lemma2_to64_rest();
    lemma_pow2_adds(52, 1022);
    assert(ONE_BITS % SIGN_BIT == ONE_BITS);
    assert(MINUS_ONE_BITS % SIGN_BIT == ONE_BITS);
    assert(ONE_BITS as int / (BINADE as int) == 1023);
    assert(ONE_BITS as int % (BINADE as int) == 0);
}

/// The error of [`NotNan::new`]: the pattern is a NaN.
#[derive(Debug)]
pub struct FloatIsNan;

/// A double that is not NaN, held by its bit pattern.
///
/// Its view is its value in units of 2^-1074, so `a@ < b@` says that `a` is the
/// smaller number.
#[derive(Clone, Copy, Debug)]
pub struct NotNan {
    bits: u64,
}

impl View for NotNan {
    type V = int;

    open spec fn view(&self) -> int {
        value(self.bits())
    }
}

impl NotNan {
    #[verifier::type_invariant]
    spec fn well_formed(self) -> bool {
        !is_nan(self.bits)
    }

    /// The bit pattern.
    pub closed spec fn bits(self) -> u64 {
        self.bits
    }

    /// Takes a bit pattern, and refuses the NaNs.
    pub fn new(bits: u64) -> (r: Result<NotNan, FloatIsNan>)
        ensures
            r is Ok <==> !is_nan(bits),
            r is Ok ==> r->Ok_0.bits() == bits,
    {
        if bits % SIGN_BIT > INFINITY_BITS {
            Err(FloatIsNan)
        } else {
            Ok(NotNan { bits })
        }
    }

    /// The bit pattern, which is never that of a NaN.
    pub fn to_bits(&self) -> (r: u64)
        ensures
            r == self.bits(),
            !is_nan(r),
    {
        proof {
            use_type_invariant(self);
        }
        self.bits
    }

    /// The double 0.0.
    pub fn zero() -> (r: NotNan)
        ensures
            r.bits() == 0,
            r@ == 0,
    {
        NotNan { bits: 0 }
    }

    /// The double 1.0.
    pub fn one() -> (r: NotNan)
        ensures
            r.bits() == ONE_BITS,
            r@ == pow2(1074),
    {
        proof {
            lemma_value_of_one();
        }
        NotNan { bits: ONE_BITS }
    }

    /// The double -1.0.
    pub fn minus_one() -> (r: NotNan)
        ensures
            r.bits() == MINUS_ONE_BITS,
            r@ == -pow2(1074),
    {
        proof {
            lemma_value_of_one();
        }
        NotNan { bits: MINUS_ONE_BITS }
    }

    /// The largest finite double.
    pub fn max_value() -> (r: NotNan)
        ensures
            r.bits() == MAX_BITS,
    {
        NotNan { bits: MAX_BITS }
    }

    /// Whether `self` is the smaller number.
    pub fn lt(&self, other: &NotNan) -> (r: bool)
        ensures
            r == (self@ < other@),
    {
        let a: u64 = self.bits;
        let b: u64 = other.bits;
        proof {
            lemma_value_order(a, b);
        }
        let ma: u64 = a % SIGN_BIT;
        let mb: u64 = b % SIGN_BIT;
        if a >= SIGN_BIT {
            if b >= SIGN_BIT {
                mb < ma
            } else {
                ma != 0 || mb != 0
            }
        } else {
            if b >= SIGN_BIT {
                false
            } else {
                ma < mb
            }
        }
    }

    /// Whether `self` is the larger number.
    pub fn gt(&self, other: &NotNan) -> (r: bool)
        ensures
            r == (self@ > other@),
    {
        other.lt(self)
    }

    /// Whether the two are the same number; 0.0 and -0.0 are.
    pub fn equals(&self, other: &NotNan) -> (r: bool)
        ensures
            r == (self@ == other@),
    {
        !self.lt(other) && !other.lt(self)
    }
}

} // verus!
