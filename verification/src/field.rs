//! Elements of the scalar field of the BN254 curve, the field in which every
//! cell of the row table lives.
//!
//! A value is kept as four 64-bit limbs, least significant first, and is always
//! below the modulus. Addition, subtraction, multiplication and inversion are
//! done by `halo2curves`; everything else is computed here.

use halo2curves::bn256::Fr;
use halo2curves::ff::Field;
use vstd::prelude::*;

verus! {

/// The order of the field.
pub open spec fn modulus() -> nat {
    21888242871839275222246405745257275088548364400416034343698204186575808495617nat
}

/// The number that four limbs stand for, least significant limb first.
pub open spec fn limbs_value(l0: u64, l1: u64, l2: u64, l3: u64) -> nat {
    (l0 as nat) + (l1 as nat) * 0x1_0000_0000_0000_0000nat + (l2 as nat)
        * 0x1_0000_0000_0000_0000_0000_0000_0000_0000nat + (l3 as nat)
        * 0x1_0000_0000_0000_0000_0000_0000_0000_0000_0000_0000_0000_0000nat
}

/// Sum in the field.
pub open spec fn field_add(a: nat, b: nat) -> nat {
    (a + b) % modulus()
}

/// Difference in the field.
pub open spec fn field_sub(a: nat, b: nat) -> nat {
    ((a as int - b as int) % (modulus() as int)) as nat
}

/// Product in the field.
pub open spec fn field_mul(a: nat, b: nat) -> nat {
    (a * b) % modulus()
}

/// A field element.
#[derive(Clone, Copy, Debug, PartialEq, Eq, Structural)]
pub struct Fe {
    l0: u64,
    l1: u64,
    l2: u64,
    l3: u64,
}

impl View for Fe {
    type V = nat;

    closed spec fn view(&self) -> nat {
        limbs_value(self.l0, self.l1, self.l2, self.l3)
    }
}

const M0: u64 = 0x43e1f593f0000001;

const M1: u64 = 0x2833e84879b97091;

const M2: u64 = 0xb85045b68181585d;

const M3: u64 = 0x30644e72e131a029;

/// The limbs of the modulus add up to the modulus.
proof fn lemma_modulus_limbs()
    ensures
        limbs_value(M0, M1, M2, M3) == modulus(),
{
}

/// Two numbers of two digits to the same base are equal only if their digits
/// are.
proof fn lemma_digits_unique(base: int, a_low: int, a_high: int, b_low: int, b_high: int)
    requires
        0 <= a_low < base,
        0 <= b_low < base,
        a_low + a_high * base == b_low + b_high * base,
    ensures
        a_low == b_low,
        a_high == b_high,
{
    if a_high < b_high {
        assert((b_high - a_high) * base >= base) by (nonlinear_arith)
            requires
                b_high - a_high >= 1,
                base > 0,
        ;
        assert(b_high * base - a_high * base == (b_high - a_high) * base) by (nonlinear_arith);
    } else if b_high < a_high {
        assert((a_high - b_high) * base >= base) by (nonlinear_arith)
            requires
                a_high - b_high >= 1,
                base > 0,
        ;
        assert(a_high * base - b_high * base == (a_high - b_high) * base) by (nonlinear_arith);
    }
}

/// Limbs that stand for the same number are the same limbs.
proof fn lemma_limbs_unique(a0: u64, a1: u64, a2: u64, a3: u64, b0: u64, b1: u64, b2: u64, b3: u64)
    requires
        limbs_value(a0, a1, a2, a3) == limbs_value(b0, b1, b2, b3),
    ensures
        a0 == b0,
        a1 == b1,
        a2 == b2,
        a3 == b3,
{
    let base: int = 0x1_0000_0000_0000_0000;
    let a_rest2: int = a2 + a3 * base;
    let b_rest2: int = b2 + b3 * base;
    let a_rest1: int = a1 + a_rest2 * base;
    let b_rest1: int = b1 + b_rest2 * base;
    assert(limbs_value(a0, a1, a2, a3) == a0 + a_rest1 * base) by (nonlinear_arith)
        requires
            base == 0x1_0000_0000_0000_0000,
            a_rest2 == a2 + a3 * base,
            a_rest1 == a1 + a_rest2 * base,
            limbs_value(a0, a1, a2, a3) == (a0 as nat) + (a1 as nat) * 0x1_0000_0000_0000_0000nat
                + (a2 as nat) * 0x1_0000_0000_0000_0000_0000_0000_0000_0000nat + (a3 as nat)
                * 0x1_0000_0000_0000_0000_0000_0000_0000_0000_0000_0000_0000_0000nat,
    ;
    assert(limbs_value(b0, b1, b2, b3) == b0 + b_rest1 * base) by (nonlinear_arith)
        requires
            base == 0x1_0000_0000_0000_0000,
            b_rest2 == b2 + b3 * base,
            b_rest1 == b1 + b_rest2 * base,
            limbs_value(b0, b1, b2, b3) == (b0 as nat) + (b1 as nat) * 0x1_0000_0000_0000_0000nat
                + (b2 as nat) * 0x1_0000_0000_0000_0000_0000_0000_0000_0000nat + (b3 as nat)
                * 0x1_0000_0000_0000_0000_0000_0000_0000_0000_0000_0000_0000_0000nat,
    ;
    lemma_digits_unique(base, a0 as int, a_rest1, b0 as int, b_rest1);
    lemma_digits_unique(base, a1 as int, a_rest2, b1 as int, b_rest2);
    lemma_digits_unique(base, a2 as int, a3 as int, b2 as int, b3 as int);
}

/// Four limbs are below the modulus exactly when they precede its limbs, read
/// from the most significant down.
fn below_modulus(l0: u64, l1: u64, l2: u64, l3: u64) -> (r: bool)
    ensures
        r == (limbs_value(l0, l1, l2, l3) < modulus()),
{
    proof {
        lemma_modulus_limbs();
    }
    if l3 != M3 {
        l3 < M3
    } else if l2 != M2 {
        l2 < M2
    } else if l1 != M1 {
        l1 < M1
    } else {
        l0 < M0
    }
}

impl Fe {
    /// Every element is reduced.
    #[verifier::type_invariant]
    pub open spec fn reduced(&self) -> bool {
        self@ < modulus()
    }

    /// Two elements with the same value are the same element.
    pub proof fn lemma_view_injective(a: Fe, b: Fe)
        ensures
            (a@ == b@) == (a == b),
    {
        if a@ == b@ {
            lemma_limbs_unique(a.l0, a.l1, a.l2, a.l3, b.l0, b.l1, b.l2, b.l3);
        }
    }

    /// The additive identity.
    pub fn zero() -> (r: Fe)
        ensures
            r@ == 0,
    {
        Fe { l0: 0, l1: 0, l2: 0, l3: 0 }
    }

    /// The multiplicative identity.
    pub fn one() -> (r: Fe)
        ensures
            r@ == 1,
    {
        Fe { l0: 1, l1: 0, l2: 0, l3: 0 }
    }

    /// The element that stands for a 64-bit number.
    pub fn from_u64(x: u64) -> (r: Fe)
        ensures
            r@ == x,
    {
        Fe { l0: x, l1: 0, l2: 0, l3: 0 }
    }

    /// The element that stands for a 128-bit number.
    pub fn from_u128(x: u128) -> (r: Fe)
        ensures
            r@ == x,
    {
        let low: u64 = (x % 0x1_0000_0000_0000_0000) as u64;
        let high: u64 = (x / 0x1_0000_0000_0000_0000) as u64;
        Fe { l0: low, l1: high, l2: 0, l3: 0 }
    }

    /// The element that stands for the 160-bit number with the given upper 128
    /// and lower 32 bits.
    pub fn from_u160(high: u128, low: u32) -> (r: Fe)
        ensures
            r@ == high * 0x1_0000_0000 + low,
    {
        let l0: u64 = ((high % 0x1_0000_0000) * 0x1_0000_0000 + (low as u128)) as u64;
        let l1: u64 = ((high / 0x1_0000_0000) % 0x1_0000_0000_0000_0000) as u64;
        let l2: u64 = (high / 0x1_0000_0000_0000_0000_0000_0000) as u64;
        Fe { l0, l1, l2, l3: 0 }
    }

    /// One for `true`, zero for `false`.
    pub fn from_bool(b: bool) -> (r: Fe)
        ensures
            r@ == if b { 1nat } else { 0nat },
    {
        if b {
            Fe::one()
        } else {
            Fe::zero()
        }
    }

    /// The element with the given limbs, least significant first, or `None`
    /// when they stand for a number that is not below the modulus.
    pub fn from_limbs(limbs: [u64; 4]) -> (r: Option<Fe>)
        ensures
            match r {
                Some(f) => f@ == limbs_value(limbs[0], limbs[1], limbs[2], limbs[3]),
                None => limbs_value(limbs[0], limbs[1], limbs[2], limbs[3]) >= modulus(),
            },
    {
        if below_modulus(limbs[0], limbs[1], limbs[2], limbs[3]) {
            Some(Fe { l0: limbs[0], l1: limbs[1], l2: limbs[2], l3: limbs[3] })
        } else {
            None
        }
    }

    /// The limbs of the element, least significant first.
    pub fn to_limbs(&self) -> (limbs: [u64; 4])
        ensures
            limbs_value(limbs[0], limbs[1], limbs[2], limbs[3]) == self@,
    {
        [self.l0, self.l1, self.l2, self.l3]
    }

    /// Whether the element is zero.
    pub fn is_zero(&self) -> (r: bool)
        ensures
            r == (self@ == 0),
    {
        self.l0 == 0 && self.l1 == 0 && self.l2 == 0 && self.l3 == 0
    }

    /// Whether two elements have the same value.
    pub fn equals(&self, other: &Fe) -> (r: bool)
        ensures
            r == (self@ == other@),
    {
        proof {
            Fe::lemma_view_injective(*self, *other);
        }
        self.l0 == other.l0 && self.l1 == other.l1 && self.l2 == other.l2 && self.l3 == other.l3
    }

    /// Sum of two elements.
    pub fn add(&self, other: &Fe) -> (r: Fe)
        ensures
            r@ == field_add(self@, other@),
    {
        sum_of(self, other)
    }

    /// Difference of two elements.
    pub fn sub(&self, other: &Fe) -> (r: Fe)
        ensures
            r@ == field_sub(self@, other@),
    {
        difference_of(self, other)
    }

    /// Product of two elements.
    pub fn mul(&self, other: &Fe) -> (r: Fe)
        ensures
            r@ == field_mul(self@, other@),
    {
        product_of(self, other)
    }

    /// The element times itself.
    pub fn square(&self) -> (r: Fe)
        ensures
            r@ == field_mul(self@, self@),
    {
        product_of(self, self)
    }

    /// The multiplicative inverse, which every element but zero has.
    pub fn invert(&self) -> (r: Option<Fe>)
        ensures
            self@ == 0 ==> r is None,
            self@ != 0 ==> r is Some && field_mul(self@, r.unwrap()@) == 1,
    {
        inverse_of(self)
    }

    /// The multiplicative inverse, or zero for zero: the witness that shows
    /// whether a cell is zero.
    pub fn inverse_or_zero(&self) -> (r: Fe)
        ensures
            self@ == 0 ==> r@ == 0,
            self@ != 0 ==> field_mul(self@, r@) == 1,
    {
        match inverse_of(self) {
            Some(inverse) => inverse,
            None => Fe::zero(),
        }
    }
}

/// `Fr::add` of halo2curves, on values converted with `Fr::from_raw` and
/// `Fr::to_bytes`: the result is the sum of the two values modulo the field's
/// order, in reduced form.
#[verifier::external_body]
fn sum_of(a: &Fe, b: &Fe) -> (r: Fe)
    ensures
        r@ == field_add(a@, b@),
        r.reduced(),
{
    let x = Fr::from_raw([a.l0, a.l1, a.l2, a.l3]);
    let t = x.add(&Fr::from_raw([b.l0, b.l1, b.l2, b.l3])).to_bytes();
    Fe {
        l0: u64::from_le_bytes(t[0..8].try_into().unwrap()),
        l1: u64::from_le_bytes(t[8..16].try_into().unwrap()),
        l2: u64::from_le_bytes(t[16..24].try_into().unwrap()),
        l3: u64::from_le_bytes(t[24..32].try_into().unwrap()),
    }
}

/// `Fr::sub` of halo2curves, on values converted with `Fr::from_raw` and
/// `Fr::to_bytes`: the result is the first value minus the second modulo the
/// field's order, in reduced form.
#[verifier::external_body]
fn difference_of(a: &Fe, b: &Fe) -> (r: Fe)
    ensures
        r@ == field_sub(a@, b@),
        r.reduced(),
{
    let x = Fr::from_raw([a.l0, a.l1, a.l2, a.l3]);
    let t = x.sub(&Fr::from_raw([b.l0, b.l1, b.l2, b.l3])).to_bytes();
    Fe {
        l0: u64::from_le_bytes(t[0..8].try_into().unwrap()),
        l1: u64::from_le_bytes(t[8..16].try_into().unwrap()),
        l2: u64::from_le_bytes(t[16..24].try_into().unwrap()),
        l3: u64::from_le_bytes(t[24..32].try_into().unwrap()),
    }
}

/// `Fr::mul` of halo2curves, on values converted with `Fr::from_raw` and
/// `Fr::to_bytes`: the result is the product of the two values modulo the
/// field's order, in reduced form.
#[verifier::external_body]
fn product_of(a: &Fe, b: &Fe) -> (r: Fe)
    ensures
        r@ == field_mul(a@, b@),
        r.reduced(),
{
    let x = Fr::from_raw([a.l0, a.l1, a.l2, a.l3]);
    let t = x.mul(&Fr::from_raw([b.l0, b.l1, b.l2, b.l3])).to_bytes();
    Fe {
        l0: u64::from_le_bytes(t[0..8].try_into().unwrap()),
        l1: u64::from_le_bytes(t[8..16].try_into().unwrap()),
        l2: u64::from_le_bytes(t[16..24].try_into().unwrap()),
        l3: u64::from_le_bytes(t[24..32].try_into().unwrap()),
    }
}

/// `Field::invert` of the `ff` crate as halo2curves implements it for `Fr`, on
/// a value converted with `Fr::from_raw` and `Fr::to_bytes`: zero has no
/// inverse; for any other value the result, in reduced form, multiplied by the
/// value is one modulo the field's order.
#[verifier::external_body]
fn inverse_of(a: &Fe) -> (r: Option<Fe>)
    ensures
        a@ == 0 ==> r is None,
        a@ != 0 ==> r is Some && field_mul(a@, r.unwrap()@) == 1 && r.unwrap().reduced(),
{
    match Option::<Fr>::from(Fr::from_raw([a.l0, a.l1, a.l2, a.l3]).invert()) {
        None => None,
        Some(x) => {
            let t = x.to_bytes();
            Some(
                Fe {
                    l0: u64::from_le_bytes(t[0..8].try_into().unwrap()),
                    l1: u64::from_le_bytes(t[8..16].try_into().unwrap()),
                    l2: u64::from_le_bytes(t[16..24].try_into().unwrap()),
                    l3: u64::from_le_bytes(t[24..32].try_into().unwrap()),
                },
            )
        },
    }
}

} // verus!
