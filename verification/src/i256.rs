//! The 256-bit signed integer bridge: a two's-complement value held as a low
//! 128-bit half and a signed high half. Scalars convert losslessly to and from
//! the range `[-max_signed_nat(), +max_signed_nat()]`; everything outside that
//! range is rejected.

use crate::scalar::{group_order, max_signed_nat, Scalar};
use vstd::arithmetic::div_mod::{
    lemma_fundamental_div_mod_converse_div, lemma_fundamental_div_mod_converse_mod,
};
use vstd::prelude::*;

verus! {

/// 2^128 as a spec-level integer.
pub open spec fn pow2_128() -> int {
    0x10000000000000000int * 0x10000000000000000int
}

/// A 256-bit signed integer: `high * 2^128 + low`.
#[derive(Clone, Copy, Debug, PartialEq, Eq, Structural, Hash)]
pub struct I256 {
    pub low: u128,
    pub high: i128,
}

impl I256 {
    /// The integer this pair denotes.
    pub open spec fn val(self) -> int {
        self.high * pow2_128() + self.low
    }

    pub fn from_parts(low: u128, high: i128) -> (r: I256)
        ensures
            r.val() == high * pow2_128() + low,
    {
        I256 { low, high }
    }

    pub fn zero() -> (r: I256)
        ensures
            r.val() == 0,
    {
        I256 { low: 0, high: 0 }
    }

    pub fn from_i128(x: i128) -> (r: I256)
        ensures
            r.val() == x,
    {
        if x >= 0 {
            I256 { low: x as u128, high: 0 }
        } else {
            let shifted: i128 = x - i128::MIN;
            let low: u128 = shifted as u128 + 0x80000000000000000000000000000000u128;
            proof {
                assert(low == x + 0x10000000000000000int * 0x10000000000000000int);
                assert((-1int) * (0x10000000000000000int * 0x10000000000000000int)
                    == -(0x10000000000000000int * 0x10000000000000000int)) by (nonlinear_arith);
            }
            I256 { low, high: -1 }
        }
    }

    /// The greatest value a scalar can stand for: `(group_order() - 1) / 2`.
    pub fn max_supported() -> (r: I256)
        ensures
            r.val() == max_signed_nat(),
    {
        I256 {
            low: 13871158888686176767925968895441824246,
            high: 10633823966279326983230456482242756608,
        }
    }

    /// The least value a scalar can stand for: `-(group_order() - 1) / 2`.
    pub fn min_supported() -> (r: I256)
        ensures
            r.val() == -(max_signed_nat() as int),
    {
        proof {
            assert((-10633823966279326983230456482242756609int)
                * (0x10000000000000000int * 0x10000000000000000int)
                + 326411208032252286695448638536326387210int
                == -((((0x0800000000000000int * 0x10000000000000000int) * 0x10000000000000000int
                    + 0x0a6f7cef517bce6bint) * 0x10000000000000000int + 0x2c09318d2e7ae9f6int)))
                by (nonlinear_arith);
        }
        I256 {
            low: 326411208032252286695448638536326387210,
            high: -10633823966279326983230456482242756609,
        }
    }

    pub fn is_negative(&self) -> (r: bool)
        ensures
            r == (self.val() < 0),
    {
        proof {
            assert((self.high < 0) == (self.high
                * (0x10000000000000000int * 0x10000000000000000int) + self.low < 0))
                by (nonlinear_arith)
                requires self.low <= 0xffffffffffffffffffffffffffffffffu128;
        }
        self.high < 0
    }

    /// Signed order of the denoted integers.
    pub fn lt(&self, other: &I256) -> (r: bool)
        ensures
            r == (self.val() < other.val()),
    {
        proof {
            if self.high < other.high {
                assert(self.high * (0x10000000000000000int * 0x10000000000000000int) + self.low
                    < other.high * (0x10000000000000000int * 0x10000000000000000int)
                        + other.low) by (nonlinear_arith)
                    requires
                        self.high < other.high,
                        self.low <= 0xffffffffffffffffffffffffffffffffu128,
                        other.low >= 0u128;
            }
            if other.high < self.high {
                assert(other.high * (0x10000000000000000int * 0x10000000000000000int) + other.low
                    < self.high * (0x10000000000000000int * 0x10000000000000000int)
                        + self.low) by (nonlinear_arith)
                    requires
                        other.high < self.high,
                        other.low <= 0xffffffffffffffffffffffffffffffffu128,
                        self.low >= 0u128;
            }
        }
        if self.high != other.high {
            self.high < other.high
        } else {
            self.low < other.low
        }
    }

    /// Exact negation; the one unrepresentable case, `-2^255`, is excluded.
    pub fn neg(&self) -> (r: I256)
        requires
            self.val() != -(pow2_128() * pow2_128()) / 2,
        ensures
            r.val() == -self.val(),
    {
        if self.low == 0 {
            proof {
                if self.high == i128::MIN {
                    assert(self.val() == i128::MIN * pow2_128());
                    assert(i128::MIN * pow2_128() == -(pow2_128() * pow2_128()) / 2)
                        by (nonlinear_arith);
                }
            }
            I256 { low: 0, high: -self.high }
        } else {
            let nh: i128 = -1i128 - self.high;
            let nl: u128 = (u128::MAX - self.low) + 1;
            proof {
                assert((-1 - self.high) * pow2_128() == -pow2_128() - self.high * pow2_128())
                    by (nonlinear_arith);
            }
            I256 { low: nl, high: nh }
        }
    }
}

/// Equal values have equal halves: the split at 2^128 is unique.
pub proof fn lemma_i256_val_injective(a: I256, b: I256)
    requires
        a.val() == b.val(),
    ensures
        a == b,
{
    lemma_i256_split(a);
    lemma_i256_split(b);
}

proof fn lemma_i256_split(a: I256)
    ensures
        a.low == a.val() % pow2_128(),
        a.high == a.val() / pow2_128(),
{
    lemma_fundamental_div_mod_converse_mod(a.val(), pow2_128(), a.high as int, a.low as int);
    lemma_fundamental_div_mod_converse_div(a.val(), pow2_128(), a.high as int, a.low as int);
}

/// Converts a canonical scalar into the 256-bit signed integer it stands for
/// under the signed reading.
pub fn convert_scalar_to_i256(s: &Scalar) -> (r: I256)
    requires
        s.is_canonical(),
    ensures
        r.val() == s.signed_val(),
{
    let is_neg = s.is_negative();
    let a = if is_neg { s.neg() } else { *s };
    assert(a.val() <= max_signed_nat());
    let low: u128 = a.d0 as u128 + (a.d1 as u128) * 0x10000000000000000;
    proof {
        lemma_scalar_high_bound(a);
    }
    let high_u: u128 = a.d2 as u128 + (a.d3 as u128) * 0x10000000000000000;
    let abs = I256 { low, high: high_u as i128 };
    proof {
        assert(abs.val() == a.val()) by {
            assert((((a.d3 * 0x10000000000000000int + a.d2) * 0x10000000000000000int + a.d1)
                * 0x10000000000000000int + a.d0)
                == (a.d2 + a.d3 * 0x10000000000000000int)
                    * (0x10000000000000000int * 0x10000000000000000int)
                    + (a.d0 + a.d1 * 0x10000000000000000int)) by (nonlinear_arith);
        }
    }
    if is_neg {
        assert(abs.val() != -(pow2_128() * pow2_128()) / 2) by {
            assert(0 <= abs.val() <= max_signed_nat() as int);
            assert(-(pow2_128() * pow2_128()) / 2 < 0) by (nonlinear_arith);
        }
        abs.neg()
    } else {
        abs
    }
}

/// A scalar no greater than `max_signed_nat()` fits in 125 bits of high half.
proof fn lemma_scalar_high_bound(a: Scalar)
    requires
        a.val() <= max_signed_nat(),
    ensures
        a.d2 + a.d3 * 0x10000000000000000int < 0x10000000000000000int * 0x8000000000000000int,
{
    if a.d3 > 0x0800000000000000u64 {
        assert(a.val() > max_signed_nat()) by {
            lemma_low_halves_nonneg(a);
            assert(a.d3 >= 0x0800000000000001u64);
            assert(a.d3 * (0x10000000000000000int * 0x10000000000000000int)
                * 0x10000000000000000int
                >= 0x0800000000000001int * (0x10000000000000000int * 0x10000000000000000int)
                    * 0x10000000000000000int) by (nonlinear_arith)
                requires a.d3 >= 0x0800000000000001u64;
        }
    }
    assert(a.d3 * 0x10000000000000000int <= 0x0800000000000000int * 0x10000000000000000int)
        by (nonlinear_arith)
        requires a.d3 <= 0x0800000000000000u64;
}

proof fn lemma_low_halves_nonneg(a: Scalar)
    ensures
        a.val() >= a.d3 * ((0x10000000000000000int * 0x10000000000000000int)
            * 0x10000000000000000int),
{
    assert((((a.d3 * 0x10000000000000000int + a.d2) * 0x10000000000000000int + a.d1)
        * 0x10000000000000000int + a.d0)
        >= a.d3 * ((0x10000000000000000int * 0x10000000000000000int) * 0x10000000000000000int))
        by (nonlinear_arith);
}

/// Converts a 256-bit signed integer into a scalar: succeeds exactly on the
/// supported range `[-max_signed_nat(), +max_signed_nat()]`.
pub fn convert_i256_to_scalar(value: &I256) -> (r: Option<Scalar>)
    ensures
        r.is_some() <==> -(max_signed_nat() as int) <= value.val() <= max_signed_nat() as int,
        r matches Some(s) ==> s.is_canonical() && s.signed_val() == value.val(),
{
    let lo_bound = I256::min_supported();
    let hi_bound = I256::max_supported();
    if value.lt(&lo_bound) || hi_bound.lt(value) {
        return None;
    }
    let is_neg = value.is_negative();
    proof {
        assert(value.high >= 0 || value.high * pow2_128() + value.low < 0) by (nonlinear_arith)
            requires value.low <= 0xffffffffffffffffffffffffffffffffu128;
    }
    let a = if is_neg {
        proof {
            assert(value.val() != -(pow2_128() * pow2_128()) / 2) by {
                assert(-(max_signed_nat() as int) > -(pow2_128() * pow2_128()) / 2)
                    by (nonlinear_arith);
            }
        }
        value.neg()
    } else {
        *value
    };
    assert(0 <= a.val() <= max_signed_nat());
    let d0: u64 = (a.low % 0x10000000000000000) as u64;
    let d1: u64 = (a.low / 0x10000000000000000) as u64;
    proof {
        assert(a.high >= 0) by (nonlinear_arith)
            requires
                a.high * (0x10000000000000000int * 0x10000000000000000int) + a.low >= 0,
                a.low <= 0xffffffffffffffffffffffffffffffffu128;
    }
    let hu: u128 = a.high as u128;
    let d2: u64 = (hu % 0x10000000000000000) as u64;
    let d3: u64 = (hu / 0x10000000000000000) as u64;
    let s = Scalar { d0, d1, d2, d3 };
    proof {
        vstd::arithmetic::div_mod::lemma_fundamental_div_mod(
            a.low as int, 0x10000000000000000int);
        vstd::arithmetic::div_mod::lemma_fundamental_div_mod(
            hu as int, 0x10000000000000000int);
        assert(a.low == d1 * 0x10000000000000000int + d0);
        assert(hu == d3 * 0x10000000000000000int + d2);
        assert(s.val() == a.val()) by {
            assert((((d3 * 0x10000000000000000int + d2) * 0x10000000000000000int + d1)
                * 0x10000000000000000int + d0)
                == (d3 * 0x10000000000000000int + d2)
                    * (0x10000000000000000int * 0x10000000000000000int)
                    + (d1 * 0x10000000000000000int + d0)) by (nonlinear_arith);
            assert(a.high * (0x10000000000000000int * 0x10000000000000000int)
                == (d3 * 0x10000000000000000int + d2)
                    * (0x10000000000000000int * 0x10000000000000000int));
        }
    }
    if is_neg {
        proof {
            // A negative value never negates to zero.
            assert(a.val() > 0);
            assert(s.val() != 0);
        }
        let n = s.neg();
        assert(n.val() > max_signed_nat());
        Some(n)
    } else {
        Some(s)
    }
}

/// Round-trip law, scalar side: converting a canonical scalar out and back
/// yields the same scalar, because the signed reading pins the value and the
/// limb representation of a canonical value is unique.
pub proof fn lemma_scalar_i256_round_trip(s: Scalar, mid: I256, back: Scalar)
    requires
        s.is_canonical(),
        mid.val() == s.signed_val(),
        back.is_canonical(),
        back.signed_val() == mid.val(),
    ensures
        back == s,
{
    crate::scalar::lemma_val_injective(s, back);
}

/// Round-trip law, integer side: an in-range 256-bit value survives conversion
/// to a scalar and back, because the half-split at 2^128 is unique.
pub proof fn lemma_i256_scalar_round_trip(v: I256, mid: Scalar, back: I256)
    requires
        -(max_signed_nat() as int) <= v.val() <= max_signed_nat() as int,
        mid.signed_val() == v.val(),
        back.val() == mid.signed_val(),
    ensures
        back == v,
{
    lemma_i256_val_injective(v, back);
}

} // verus!
