//! Arithmetic in the BN254 scalar field.
//!
//! A [`FieldElement`] is a 256-bit unsigned integer held as four 64-bit limbs,
//! least significant first.  Its view is the integer it denotes.  Addition and
//! multiplication reduce modulo the fixed prime [`field_modulus`]; the wide
//! arithmetic itself is done by `ruint`.

use crate::numeral::{decimal_value, is_decimal, is_decimal_numeral};
use ruint::aliases::U256;
use std::str::FromStr;
use vstd::arithmetic::div_mod::{
    lemma_add_mod_noop, lemma_mod_twice, lemma_mul_mod_noop_left, lemma_mul_mod_noop_right,
    lemma_small_mod,
};
use vstd::arithmetic::mul::{lemma_mul_is_associative, lemma_mul_is_commutative};
use vstd::prelude::*;

verus! {

/// The order of the BN254 scalar field.
pub open spec fn field_modulus() -> nat {
    21888242871839275222246405745257275088548364400416034343698204186575808495617nat
}

/// Number of values of one limb, `2^64`.
pub open spec fn limb_radix() -> nat {
    0x1_0000_0000_0000_0000nat
}

/// Number of values of a field element's representation, `2^256`.
pub open spec fn word_bound() -> nat {
    0x1_0000_0000_0000_0000_0000_0000_0000_0000_0000_0000_0000_0000_0000_0000_0000_0000nat
}

/// Sum modulo the field order.
pub open spec fn field_add(a: nat, b: nat) -> nat {
    (a + b) % field_modulus()
}

/// Product modulo the field order.
pub open spec fn field_mul(a: nat, b: nat) -> nat {
    (a * b) % field_modulus()
}

/// The integer denoted by four limbs, least significant first.
pub open spec fn limbs_value(l0: u64, l1: u64, l2: u64, l3: u64) -> nat {
    join_limb(l0, join_limb(l1, join_limb(l2, l3 as nat)))
}

/// The integer whose lowest limb is `low` and whose other limbs denote `high`.
pub open spec fn join_limb(low: u64, high: nat) -> nat {
    low as nat + limb_radix() * high
}

/// The element that a string denotes: the value of a decimal numeral that is
/// below `2^256`, and nothing for any other string.
pub open spec fn field_value_of(s: Seq<char>) -> Option<nat> {
    if is_decimal_numeral(s) && decimal_value(s) < word_bound() {
        Some(decimal_value(s))
    } else {
        None
    }
}

/// An unsigned 256-bit integer, read as a residue modulo [`field_modulus`].
#[derive(Clone, Copy, Debug, PartialEq, Eq, Hash, Structural)]
pub struct FieldElement {
    pub limb0: u64,
    pub limb1: u64,
    pub limb2: u64,
    pub limb3: u64,
}

impl View for FieldElement {
    type V = nat;

    open spec fn view(&self) -> nat {
        limbs_value(self.limb0, self.limb1, self.limb2, self.limb3)
    }
}

pub const MODULUS_LIMB0: u64 = 0x43e1f593f0000001;

pub const MODULUS_LIMB1: u64 = 0x2833e84879b97091;

pub const MODULUS_LIMB2: u64 = 0xb85045b68181585d;

pub const MODULUS_LIMB3: u64 = 0x30644e72e131a029;

/// A number written as a digit below `radix` and a rest determines both.
proof fn lemma_digit_and_rest(low1: int, high1: int, low2: int, high2: int, radix: int)
    by (nonlinear_arith)
    requires
        0 <= low1 < radix,
        0 <= low2 < radix,
        low1 + radix * high1 == low2 + radix * high2,
    ensures
        low1 == low2,
        high1 == high2,
{
}

/// A digit below `radix` joined to a rest below `bound` is below their product.
proof fn lemma_digit_and_rest_bound(low: int, high: int, radix: int, bound: int)
    by (nonlinear_arith)
    requires
        0 <= low < radix,
        0 <= high < bound,
    ensures
        low + radix * high < radix * bound,
{
}

/// Two field elements denote the same integer only if they are the same
/// limbs: the representation is unique.
pub proof fn lemma_view_injective(a: FieldElement, b: FieldElement)
    ensures
        a@ == b@ <==> a == b,
{
    if a@ == b@ {
        let r = limb_radix() as int;
        let a2 = join_limb(a.limb2, a.limb3 as nat);
        let b2 = join_limb(b.limb2, b.limb3 as nat);
        let a1 = join_limb(a.limb1, a2);
        let b1 = join_limb(b.limb1, b2);
        lemma_digit_and_rest(a.limb0 as int, a1 as int, b.limb0 as int, b1 as int, r);
        lemma_digit_and_rest(a.limb1 as int, a2 as int, b.limb1 as int, b2 as int, r);
        lemma_digit_and_rest(
            a.limb2 as int,
            a.limb3 as int,
            b.limb2 as int,
            b.limb3 as int,
            r,
        );
    }
}

/// Every field element denotes an integer below `2^256`.
pub proof fn lemma_view_bound(a: FieldElement)
    ensures
        a@ < word_bound(),
{
    let r = limb_radix() as int;
    let a2 = join_limb(a.limb2, a.limb3 as nat);
    let a1 = join_limb(a.limb1, a2);
    lemma_digit_and_rest_bound(a.limb2 as int, a.limb3 as int, r, r);
    lemma_digit_and_rest_bound(a.limb1 as int, a2 as int, r, r * r);
    lemma_digit_and_rest_bound(a.limb0 as int, a1 as int, r, r * (r * r));
    assert(r * (r * (r * r)) == word_bound()) by (nonlinear_arith)
        requires
            r == 0x1_0000_0000_0000_0000int,
            word_bound()
                == 0x1_0000_0000_0000_0000_0000_0000_0000_0000_0000_0000_0000_0000_0000_0000_0000_0000int,
    ;
}

impl FieldElement {
    /// The element whose value is `v`.
    pub fn from_u64(v: u64) -> (r: FieldElement)
        ensures
            r@ == v,
    {
        FieldElement { limb0: v, limb1: 0, limb2: 0, limb3: 0 }
    }

    /// The additive identity.
    pub fn zero() -> (r: FieldElement)
        ensures
            r@ == 0,
    {
        FieldElement { limb0: 0, limb1: 0, limb2: 0, limb3: 0 }
    }

    /// The multiplicative identity.
    pub fn one() -> (r: FieldElement)
        ensures
            r@ == 1,
    {
        FieldElement { limb0: 1, limb1: 0, limb2: 0, limb3: 0 }
    }

    /// Reads an element from a decimal numeral.  A string that is no decimal
    /// numeral, or whose value does not fit 256 bits, gives `None`.
    pub fn from_decimal(text: &str) -> (r: Option<FieldElement>)
        ensures
            match r {
                Some(element) => field_value_of(text@) == Some(element@),
                None => field_value_of(text@) is None,
            },
    {
        if !is_decimal(text) {
            return None;
        }
        let parsed = uint_from_decimal(text);
        proof {
            if let Some(element) = parsed {
                lemma_view_bound(element);
            }
        }
        parsed
    }

    /// The order of the field, as an element of the representation.
    pub fn modulus() -> (r: FieldElement)
        ensures
            r@ == field_modulus(),
    {
        FieldElement {
            limb0: MODULUS_LIMB0,
            limb1: MODULUS_LIMB1,
            limb2: MODULUS_LIMB2,
            limb3: MODULUS_LIMB3,
        }
    }
}

/// Calls `ruint`'s `FromStr::from_str` for 256-bit integers on a string of
/// decimal digits.
///
/// Trusted: on such a string `ruint` reads base ten, returns the number that
/// the digits denote, and fails exactly when that number does not fit 256
/// bits.  Strings with other characters, which `ruint` would read as a radix
/// prefix or skip, are kept out by the precondition.
#[verifier::external_body]
fn uint_from_decimal(text: &str) -> (r: Option<FieldElement>)
    requires
        is_decimal_numeral(text@),
    ensures
        match r {
            Some(element) => element@ == decimal_value(text@),
            None => decimal_value(text@) >= word_bound(),
        },
{
    match U256::from_str(text) {
        Ok(parsed) => {
            let l = parsed.into_limbs();
            Some(FieldElement { limb0: l[0], limb1: l[1], limb2: l[2], limb3: l[3] })
        },
        Err(_) => None,
    }
}

/// Calls `ruint::Uint::add_mod` on 256-bit integers built from the limbs.
///
/// Trusted: the result is the sum of the two integers reduced modulo
/// `modulus`, and zero when `modulus` is zero, as `ruint` documents it.
#[verifier::external_body]
fn uint_add_mod(a: FieldElement, b: FieldElement, modulus: FieldElement) -> (r: FieldElement)
    ensures
        r@ == if modulus@ == 0 {
            0nat
        } else {
            (a@ + b@) % modulus@
        },
{
    let x = U256::from_limbs([a.limb0, a.limb1, a.limb2, a.limb3]);
    let y = U256::from_limbs([b.limb0, b.limb1, b.limb2, b.limb3]);
    let m = U256::from_limbs([modulus.limb0, modulus.limb1, modulus.limb2, modulus.limb3]);
    let l = x.add_mod(y, m).into_limbs();
    FieldElement { limb0: l[0], limb1: l[1], limb2: l[2], limb3: l[3] }
}

/// Calls `ruint::Uint::mul_mod` on 256-bit integers built from the limbs.
///
/// Trusted: the result is the full-width product of the two integers reduced
/// modulo `modulus`, and zero when `modulus` is zero, as `ruint` documents it.
#[verifier::external_body]
fn uint_mul_mod(a: FieldElement, b: FieldElement, modulus: FieldElement) -> (r: FieldElement)
    ensures
        r@ == if modulus@ == 0 {
            0nat
        } else {
            (a@ * b@) % modulus@
        },
{
    let x = U256::from_limbs([a.limb0, a.limb1, a.limb2, a.limb3]);
    let y = U256::from_limbs([b.limb0, b.limb1, b.limb2, b.limb3]);
    let m = U256::from_limbs([modulus.limb0, modulus.limb1, modulus.limb2, modulus.limb3]);
    let l = x.mul_mod(y, m).into_limbs();
    FieldElement { limb0: l[0], limb1: l[1], limb2: l[2], limb3: l[3] }
}

/// Field addition.  The operands need not be reduced; the result always is.
pub fn add_mod(a: FieldElement, b: FieldElement) -> (r: FieldElement)
    ensures
        r@ == field_add(a@, b@),
        r@ < field_modulus(),
{
    uint_add_mod(a, b, FieldElement::modulus())
}

/// Field multiplication.  The product is formed at full width before it is
/// reduced, so no operand is too large.
pub fn mul_mod(a: FieldElement, b: FieldElement) -> (r: FieldElement)
    ensures
        r@ == field_mul(a@, b@),
        r@ < field_modulus(),
{
    uint_mul_mod(a, b, FieldElement::modulus())
}

/// Addition modulo any positive `m` is associative.
proof fn lemma_add_associative_modulo(a: int, b: int, c: int, m: int)
    requires
        m > 0,
    ensures
        (((a + b) % m) + c) % m == (a + ((b + c) % m)) % m,
{
    lemma_add_mod_noop((a + b) % m, c, m);
    lemma_add_mod_noop(a + b, c, m);
    lemma_add_mod_noop(a, (b + c) % m, m);
    lemma_add_mod_noop(a, b + c, m);
    lemma_mod_twice(a + b, m);
    lemma_mod_twice(b + c, m);
}

/// Multiplication modulo any positive `m` is associative.
proof fn lemma_mul_associative_modulo(a: int, b: int, c: int, m: int)
    requires
        m > 0,
    ensures
        (((a * b) % m) * c) % m == (a * ((b * c) % m)) % m,
{
    lemma_mul_mod_noop_left(a * b, c, m);
    lemma_mul_mod_noop_right(a, b * c, m);
    lemma_mul_is_associative(a, b, c);
}

/// Field addition does not depend on the order of its operands.
pub proof fn lemma_add_mod_commutative(a: nat, b: nat)
    ensures
        field_add(a, b) == field_add(b, a),
{
}

/// Field addition does not depend on how a sum of three is grouped.
pub proof fn lemma_add_mod_associative(a: nat, b: nat, c: nat)
    ensures
        field_add(field_add(a, b), c) == field_add(a, field_add(b, c)),
{
    lemma_add_associative_modulo(a as int, b as int, c as int, field_modulus() as int);
}

/// Zero is the identity of field addition on reduced elements.
pub proof fn lemma_add_mod_zero(a: nat)
    requires
        a < field_modulus(),
    ensures
        field_add(a, 0) == a,
{
    lemma_small_mod(a, field_modulus());
}

/// Field multiplication does not depend on the order of its operands.
pub proof fn lemma_mul_mod_commutative(a: nat, b: nat)
    ensures
        field_mul(a, b) == field_mul(b, a),
{
    lemma_mul_is_commutative(a as int, b as int);
}

/// Field multiplication does not depend on how a product of three is grouped.
pub proof fn lemma_mul_mod_associative(a: nat, b: nat, c: nat)
    ensures
        field_mul(field_mul(a, b), c) == field_mul(a, field_mul(b, c)),
{
    lemma_mul_associative_modulo(a as int, b as int, c as int, field_modulus() as int);
}

/// One is the identity of field multiplication on reduced elements.
pub proof fn lemma_mul_mod_one(a: nat)
    requires
        a < field_modulus(),
    ensures
        field_mul(a, 1) == a,
{
    lemma_small_mod(a, field_modulus());
}

} // verus!
