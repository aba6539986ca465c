//! The prime-field scalar: an element of the field whose order is the
//! curve25519 group order, held as four little-endian 64-bit limbs, always in
//! canonical (fully reduced) form. Scalars above `max_signed_nat()` are read
//! as negative integers under the signed interpretation.

use vstd::arithmetic::div_mod::{
    lemma_fundamental_div_mod_converse_div, lemma_fundamental_div_mod_converse_mod,
};
use curve25519_dalek::scalar::Scalar as DalekScalar;
use vstd::prelude::*;

verus! {

/// The order of the scalar field: 2^252 + 27742317777372353535851937790883648493.
pub open spec fn group_order() -> nat {
    (((0x1000000000000000int * 0x10000000000000000int) * 0x10000000000000000int
        + 0x14def9dea2f79cd6int) * 0x10000000000000000int + 0x5812631a5cf5d3edint) as nat
}

/// `(group_order() - 1) / 2`: the largest value whose signed reading is non-negative.
pub open spec fn max_signed_nat() -> nat {
    (((0x0800000000000000int * 0x10000000000000000int) * 0x10000000000000000int
        + 0x0a6f7cef517bce6bint) * 0x10000000000000000int + 0x2c09318d2e7ae9f6int) as nat
}

/// A field element as four little-endian 64-bit limbs.
#[derive(Clone, Copy, Debug, PartialEq, Eq, Structural, Hash)]
pub struct Scalar {
    pub d0: u64,
    pub d1: u64,
    pub d2: u64,
    pub d3: u64,
}

impl Scalar {
    /// The integer the limbs denote, little-endian in base 2^64.
    pub open spec fn val(self) -> nat {
        (((self.d3 * 0x10000000000000000int + self.d2) * 0x10000000000000000int + self.d1)
            * 0x10000000000000000int + self.d0) as nat
    }

    /// Fully reduced: the denoted integer lies below the group order.
    pub open spec fn is_canonical(self) -> bool {
        self.val() < group_order()
    }

    /// The signed reading: a value above `max_signed_nat()` stands for `val - order`.
    pub open spec fn signed_val(self) -> int {
        if self.val() <= max_signed_nat() {
            self.val() as int
        } else {
            self.val() as int - group_order() as int
        }
    }

    pub fn zero() -> (r: Scalar)
        ensures
            r.val() == 0,
            r.is_canonical(),
    {
        Scalar { d0: 0, d1: 0, d2: 0, d3: 0 }
    }

    pub fn one() -> (r: Scalar)
        ensures
            r.val() == 1,
            r.is_canonical(),
    {
        Scalar { d0: 1, d1: 0, d2: 0, d3: 0 }
    }

    /// The boundary scalar `(group_order() - 1) / 2`.
    pub fn max_signed() -> (r: Scalar)
        ensures
            r.val() == max_signed_nat(),
            r.is_canonical(),
    {
        Scalar {
            d0: 0x2c09318d2e7ae9f6,
            d1: 0x0a6f7cef517bce6b,
            d2: 0,
            d3: 0x0800000000000000,
        }
    }

    pub fn from_u64(x: u64) -> (r: Scalar)
        ensures
            r.val() == x,
            r.is_canonical(),
    {
        Scalar { d0: x, d1: 0, d2: 0, d3: 0 }
    }

    pub fn from_u128(x: u128) -> (r: Scalar)
        ensures
            r.val() == x,
            r.is_canonical(),
    {
        let lo: u64 = (x % 0x10000000000000000) as u64;
        let hi: u64 = (x / 0x10000000000000000) as u64;
        proof {
            lemma_fundamental_div_mod_converse_mod(
                x as int, 0x10000000000000000, (x / 0x10000000000000000) as int,
                (x % 0x10000000000000000) as int);
        }
        Scalar { d0: lo, d1: hi, d2: 0, d3: 0 }
    }

    pub fn from_i64(x: i64) -> (r: Scalar)
        ensures
            r.signed_val() == x,
            r.is_canonical(),
    {
        Scalar::from_i128(x as i128)
    }

    pub fn from_i128(x: i128) -> (r: Scalar)
        ensures
            r.signed_val() == x,
            r.is_canonical(),
    {
        if x >= 0 {
            let r = Scalar::from_u128(x as u128);
            assert(r.val() <= max_signed_nat());
            r
        } else {
            let abs: u128 = if x == i128::MIN {
                0x80000000000000000000000000000000u128
            } else {
                (-x) as u128
            };
            let lifted = Scalar::from_u128(abs);
            let r = lifted.neg();
            assert(r.val() == group_order() - abs);
            assert(r.val() > max_signed_nat());
            r
        }
    }

    /// Field negation: zero stays zero, anything else becomes `order - val`.
    pub fn neg(&self) -> (r: Scalar)
        requires
            self.is_canonical(),
        ensures
            r.is_canonical(),
            r.val() == if self.val() == 0 { 0nat } else { (group_order() - self.val()) as nat },
    {
        let r = neg_mod_order(self);
        proof {
            if self.val() == 0 {
                lemma_fundamental_div_mod_converse_mod(0int, group_order() as int, 0int, 0int);
            } else {
                lemma_fundamental_div_mod_converse_mod(
                    0int - self.val() as int, group_order() as int, -1int,
                    group_order() as int - self.val() as int);
            }
        }
        r
    }

    /// Field addition modulo the group order.
    pub fn add(&self, other: &Scalar) -> (r: Scalar)
        ensures
            r.is_canonical(),
            r.val() == (self.val() + other.val()) % group_order(),
    {
        add_mod_order(self, other)
    }

    /// Field subtraction modulo the group order.
    pub fn sub(&self, other: &Scalar) -> (r: Scalar)
        ensures
            r.is_canonical(),
            r.val() == ((self.val() as int - other.val() as int) % (group_order() as int)) as nat,
    {
        sub_mod_order(self, other)
    }

    /// Field multiplication modulo the group order.
    pub fn mul(&self, other: &Scalar) -> (r: Scalar)
        ensures
            r.is_canonical(),
            r.val() == (self.val() * other.val()) % group_order(),
    {
        mul_mod_order(self, other)
    }

    /// Numeric order of the denoted integers (not the signed reading).
    pub fn lt(&self, other: &Scalar) -> (r: bool)
        ensures
            r == (self.val() < other.val()),
    {
        proof {
            lemma_low_limbs_bound(*self);
            lemma_low_limbs_bound(*other);
        }
        if self.d3 != other.d3 {
            self.d3 < other.d3
        } else if self.d2 != other.d2 {
            self.d2 < other.d2
        } else if self.d1 != other.d1 {
            self.d1 < other.d1
        } else {
            self.d0 < other.d0
        }
    }

    /// True when the signed reading is negative.
    pub fn is_negative(&self) -> (r: bool)
        ensures
            r == (self.val() > max_signed_nat()),
    {
        let m = Scalar::max_signed();
        m.lt(self)
    }

    /// Decides canonicity of arbitrary limbs, for deserialised input.
    pub fn check_canonical(&self) -> (r: bool)
        ensures
            r == self.is_canonical(),
    {
        let order = Scalar {
            d0: 0x5812631a5cf5d3ed,
            d1: 0x14def9dea2f79cd6,
            d2: 0,
            d3: 0x1000000000000000,
        };
        assert(order.val() == group_order());
        self.lt(&order)
    }
}

/// The three low limbs together contribute strictly less than 2^192.
proof fn lemma_low_limbs_bound(s: Scalar)
    ensures
        (s.d2 * 0x10000000000000000int + s.d1) * 0x10000000000000000int + s.d0
            < (0x10000000000000000int * 0x10000000000000000int) * 0x10000000000000000int,
        s.val() == s.d3 * ((0x10000000000000000int * 0x10000000000000000int)
            * 0x10000000000000000int)
            + ((s.d2 * 0x10000000000000000int + s.d1) * 0x10000000000000000int + s.d0),
{
    assert(s.d0 <= 0xffffffffffffffffu64);
    assert(s.d1 * 0x10000000000000000int <= 0xffffffffffffffffint * 0x10000000000000000int);
    assert(s.d2 * 0x10000000000000000int <= 0xffffffffffffffffint * 0x10000000000000000int);
    assert(((s.d3 * 0x10000000000000000int + s.d2) * 0x10000000000000000int + s.d1)
        * 0x10000000000000000int + s.d0
        == s.d3 * ((0x10000000000000000int * 0x10000000000000000int) * 0x10000000000000000int)
            + ((s.d2 * 0x10000000000000000int + s.d1) * 0x10000000000000000int + s.d0))
        by (nonlinear_arith);
}

/// Equal values have equal limbs: the base-2^64 digits of an integer are unique.
pub proof fn lemma_val_injective(a: Scalar, b: Scalar)
    requires
        a.val() == b.val(),
    ensures
        a == b,
{
    lemma_limb_split(a);
    lemma_limb_split(b);
}

/// Each limb is a digit of `val()` in base 2^64.
proof fn lemma_limb_split(a: Scalar)
    ensures
        a.d0 == a.val() as int % 0x10000000000000000int,
        a.d1 == (a.val() as int / 0x10000000000000000int) % 0x10000000000000000int,
        a.d2 == (a.val() as int / (0x10000000000000000int * 0x10000000000000000int))
            % 0x10000000000000000int,
        a.d3 == a.val() as int / ((0x10000000000000000int * 0x10000000000000000int)
            * 0x10000000000000000int),
{
    let b: int = 0x10000000000000000int;
    let v = a.val() as int;
    let q1: int = a.d1 + a.d2 * b + a.d3 * (b * b);
    assert(v == q1 * b + a.d0) by {
        lemma_low_limbs_bound(a);
    }
    lemma_fundamental_div_mod_converse_mod(v, b, q1, a.d0 as int);
    lemma_fundamental_div_mod_converse_div(v, b, q1, a.d0 as int);
    let q2: int = a.d2 + a.d3 * b;
    assert(q1 == q2 * b + a.d1);
    lemma_fundamental_div_mod_converse_mod(q1, b, q2, a.d1 as int);
    lemma_fundamental_div_mod_converse_div(q1, b, q2, a.d1 as int);
    let q3: int = a.d3 as int;
    assert(q2 == q3 * b + a.d2);
    lemma_fundamental_div_mod_converse_mod(q2, b, q3, a.d2 as int);
    lemma_fundamental_div_mod_converse_div(q2, b, q3, a.d2 as int);
    assert(q3 == q3 * 1);
    assert(a.d3 == q3 * b / b + 0) by {
        lemma_fundamental_div_mod_converse_div(q3 * b, b, q3, 0int);
    }
    assert(v / (b * b) == q2) by {
        lemma_fundamental_div_mod_converse_div(v, b * b, q2, a.d1 * b + a.d0);
    }
    assert(v / (b * b * b) == q3) by {
        lemma_fundamental_div_mod_converse_div(
            v, b * b * b, q3, (a.d2 * b + a.d1) * b + a.d0);
    }
}

/// Relies on curve25519_dalek::scalar::Scalar: `from_bytes_mod_order` reduces a
/// little-endian 256-bit integer modulo the group order, `+` adds modulo the
/// group order, and `to_bytes` is the canonical little-endian encoding.
#[verifier::external_body]
fn add_mod_order(a: &Scalar, b: &Scalar) -> (r: Scalar)
    ensures
        r.is_canonical(),
        r.val() == (a.val() + b.val()) % group_order(),
{
    let av = [a.d0, a.d1, a.d2, a.d3].map(u64::to_le_bytes);
    let bv = [b.d0, b.d1, b.d2, b.d3].map(u64::to_le_bytes);
    let s = (DalekScalar::from_bytes_mod_order(av.concat().try_into().unwrap())
        + DalekScalar::from_bytes_mod_order(bv.concat().try_into().unwrap())).to_bytes();
    let mut d = s.chunks_exact(8).map(|c| u64::from_le_bytes(c.try_into().unwrap()));
    Scalar { d0: d.next().unwrap(), d1: d.next().unwrap(), d2: d.next().unwrap(), d3: d.next().unwrap() }
}

/// Relies on curve25519_dalek::scalar::Scalar: `-` subtracts modulo the group
/// order, with `from_bytes_mod_order` and `to_bytes` as in `add_mod_order`.
#[verifier::external_body]
fn sub_mod_order(a: &Scalar, b: &Scalar) -> (r: Scalar)
    ensures
        r.is_canonical(),
        r.val() == ((a.val() as int - b.val() as int) % (group_order() as int)) as nat,
{
    let av = [a.d0, a.d1, a.d2, a.d3].map(u64::to_le_bytes);
    let bv = [b.d0, b.d1, b.d2, b.d3].map(u64::to_le_bytes);
    let s = (DalekScalar::from_bytes_mod_order(av.concat().try_into().unwrap())
        - DalekScalar::from_bytes_mod_order(bv.concat().try_into().unwrap())).to_bytes();
    let mut d = s.chunks_exact(8).map(|c| u64::from_le_bytes(c.try_into().unwrap()));
    Scalar { d0: d.next().unwrap(), d1: d.next().unwrap(), d2: d.next().unwrap(), d3: d.next().unwrap() }
}

/// Relies on curve25519_dalek::scalar::Scalar: `*` multiplies modulo the group
/// order, with `from_bytes_mod_order` and `to_bytes` as in `add_mod_order`.
#[verifier::external_body]
fn mul_mod_order(a: &Scalar, b: &Scalar) -> (r: Scalar)
    ensures
        r.is_canonical(),
        r.val() == (a.val() * b.val()) % group_order(),
{
    let av = [a.d0, a.d1, a.d2, a.d3].map(u64::to_le_bytes);
    let bv = [b.d0, b.d1, b.d2, b.d3].map(u64::to_le_bytes);
    let s = (DalekScalar::from_bytes_mod_order(av.concat().try_into().unwrap())
        * DalekScalar::from_bytes_mod_order(bv.concat().try_into().unwrap())).to_bytes();
    let mut d = s.chunks_exact(8).map(|c| u64::from_le_bytes(c.try_into().unwrap()));
    Scalar { d0: d.next().unwrap(), d1: d.next().unwrap(), d2: d.next().unwrap(), d3: d.next().unwrap() }
}

/// Relies on curve25519_dalek::scalar::Scalar: unary `-` negates modulo the
/// group order, with `from_bytes_mod_order` and `to_bytes` as in `add_mod_order`.
#[verifier::external_body]
fn neg_mod_order(a: &Scalar) -> (r: Scalar)
    ensures
        r.is_canonical(),
        r.val() == ((0int - a.val() as int) % (group_order() as int)) as nat,
{
    let av = [a.d0, a.d1, a.d2, a.d3].map(u64::to_le_bytes);
    let s = (-DalekScalar::from_bytes_mod_order(av.concat().try_into().unwrap())).to_bytes();
    let mut d = s.chunks_exact(8).map(|c| u64::from_le_bytes(c.try_into().unwrap()));
    Scalar { d0: d.next().unwrap(), d1: d.next().unwrap(), d2: d.next().unwrap(), d3: d.next().unwrap() }
}

} // verus!
