//! Field elements of the BN254 scalar field, held as the four 64-bit limbs of
//! their Montgomery representation, and the field arithmetic used on them.

use vstd::prelude::*;
use ark_bn254::Fr;
use ark_ff::{BigInt, Field};

verus! {

/// Least significant limb of the BN254 scalar field modulus.
pub const MODULUS_LIMB_0: u64 = 0x43e1f593f0000001;
pub const MODULUS_LIMB_1: u64 = 0x2833e84879b97091;
pub const MODULUS_LIMB_2: u64 = 0xb85045b68181585d;
/// Most significant limb of the BN254 scalar field modulus.
pub const MODULUS_LIMB_3: u64 = 0x30644e72e131a029;

/// Least significant limb of R^-1 mod p, the inverse of the Montgomery factor.
pub const MONT_R_INV_LIMB_0: u64 = 0xdc5ba0056db1194e;
pub const MONT_R_INV_LIMB_1: u64 = 0x090ef5a9e111ec87;
pub const MONT_R_INV_LIMB_2: u64 = 0xc8260de4aeb85d5d;
/// Most significant limb of R^-1 mod p.
pub const MONT_R_INV_LIMB_3: u64 = 0x15ebf95182c5551c;

/// 2^64.
pub open spec fn base64() -> int {
    (0x1_0000_0000 * 0x1_0000_0000) as int
}

/// 2^128.
pub open spec fn base128() -> int {
    base64() * base64()
}

/// The bases are one past the largest 64-bit and 128-bit integers.
pub proof fn lemma_bases()
    ensures
        base64() == u64::MAX as int + 1,
        base128() == u128::MAX as int + 1,
{
    assert(base64() == 0x1_0000_0000_0000_0000);
    assert(base128() == 0x1_0000_0000_0000_0000 * 0x1_0000_0000_0000_0000);
}

/// The integer with little-endian base-2^64 digits l0, l1, l2, l3.
pub open spec fn value4(l0: int, l1: int, l2: int, l3: int) -> int {
    l0 + base64() * (l1 + base64() * (l2 + base64() * l3))
}

/// The integer that four little-endian 64-bit limbs stand for.
pub open spec fn limbs_value(l: [u64; 4]) -> int {
    value4(l[0] as int, l[1] as int, l[2] as int, l[3] as int)
}

/// The characteristic p of the BN254 scalar field.
pub open spec fn modulus() -> int {
    value4(MODULUS_LIMB_0 as int, MODULUS_LIMB_1 as int, MODULUS_LIMB_2 as int, MODULUS_LIMB_3 as int)
}

/// The Montgomery factor R = 2^256: an element a is stored as a * R mod p.
pub open spec fn mont_r() -> int {
    base128() * base128()
}

/// R^-1 mod p: the integer in [0, p) whose product with R is 1 mod p.
pub open spec fn mont_r_inv() -> int {
    value4(MONT_R_INV_LIMB_0 as int, MONT_R_INV_LIMB_1 as int, MONT_R_INV_LIMB_2 as int, MONT_R_INV_LIMB_3 as int)
}

/// Montgomery product of two representations: a * b * R^-1 mod p.
pub open spec fn mont_mul(a: int, b: int) -> int {
    (a * b * mont_r_inv()) % modulus()
}

/// Sum of two representations mod p.
pub open spec fn mod_add(a: int, b: int) -> int {
    (a + b) % modulus()
}

/// A field element in Montgomery form: `limbs` hold a * R mod p, little-endian.
#[derive(Clone, Copy, Debug, PartialEq, Eq)]
pub struct Felt {
    pub limbs: [u64; 4],
}

impl Felt {
    /// The integer held by the limbs (the Montgomery representation).
    pub open spec fn raw(self) -> int {
        limbs_value(self.limbs)
    }

    /// A well-formed element is fully reduced: its representation is below p.
    pub open spec fn wf(self) -> bool {
        self.raw() < modulus()
    }

    /// The element whose Montgomery representation is zero.
    pub fn zero() -> (r: Felt)
        ensures
            r.raw() == 0,
            r.wf(),
    {
        let r = Felt { limbs: [0u64; 4] };
        assert(r.limbs[0] == 0 && r.limbs[1] == 0 && r.limbs[2] == 0 && r.limbs[3] == 0);
        proof {
            lemma_modulus_facts();
        }
        r
    }
}

/// Four digits below 2^64 make an integer below R = 2^256.
pub proof fn lemma_value4_bounds(l0: int, l1: int, l2: int, l3: int)
    requires
        0 <= l0 < base64(),
        0 <= l1 < base64(),
        0 <= l2 < base64(),
        0 <= l3 < base64(),
    ensures
        0 <= value4(l0, l1, l2, l3) < mont_r(),
{
    let b = base64();
    assert(0 <= l2 + b * l3 < b * b) by (nonlinear_arith)
        requires 0 <= l2 < b, 0 <= l3 < b;
    let m = l2 + b * l3;
    assert(0 <= l1 + b * m < b * (b * b)) by (nonlinear_arith)
        requires 0 <= l1 < b, 0 <= m < b * b;
    let n = l1 + b * m;
    assert(0 <= l0 + b * n < b * (b * (b * b))) by (nonlinear_arith)
        requires 0 <= l0 < b, 0 <= n < b * (b * b);
    assert(b * (b * (b * b)) == (b * b) * (b * b)) by (nonlinear_arith);
}

/// Facts on the modulus that the arithmetic relies on.
pub proof fn lemma_modulus_facts()
    ensures
        0 < modulus(),
        modulus() < mont_r(),
{
    lemma_value4_bounds(MODULUS_LIMB_0 as int, MODULUS_LIMB_1 as int, MODULUS_LIMB_2 as int, MODULUS_LIMB_3 as int);
}

/// Relies on `Fr`'s `AddAssign` (ark-ff Montgomery backend): the limbs of the two
/// reduced representations are added and the modulus subtracted once if needed.
#[verifier::external_body]
pub(crate) fn fr_add(a: Felt, b: Felt) -> (r: Felt)
    requires
        a.wf(),
        b.wf(),
    ensures
        r.raw() == mod_add(a.raw(), b.raw()),
{
    let mut x = Fr::new_unchecked(BigInt::new(a.limbs));
    x += Fr::new_unchecked(BigInt::new(b.limbs));
    Felt { limbs: (x.0).0 }
}

/// Relies on `Fr`'s `MulAssign` (ark-ff Montgomery backend): Montgomery
/// multiplication, a * b * R^-1 mod p, fully reduced.
#[verifier::external_body]
pub(crate) fn fr_mul(a: Felt, b: Felt) -> (r: Felt)
    requires
        a.wf(),
        b.wf(),
    ensures
        r.raw() == mont_mul(a.raw(), b.raw()),
{
    let mut x = Fr::new_unchecked(BigInt::new(a.limbs));
    x *= Fr::new_unchecked(BigInt::new(b.limbs));
    Felt { limbs: (x.0).0 }
}

/// Relies on `Fr`'s `From<u64>`: the integer k is put in Montgomery form, k * R mod p.
#[verifier::external_body]
pub(crate) fn fr_from_u64(k: u64) -> (r: Felt)
    ensures
        r.raw() == (k as int * mont_r()) % modulus(),
{
    let x = Fr::from(k);
    Felt { limbs: (x.0).0 }
}

/// Relies on `Field::characteristic` for `Fr`: the limbs of p, little-endian.
#[verifier::external_body]
pub(crate) fn fr_characteristic() -> (r: [u64; 4])
    ensures
        r[0] == MODULUS_LIMB_0,
        r[1] == MODULUS_LIMB_1,
        r[2] == MODULUS_LIMB_2,
        r[3] == MODULUS_LIMB_3,
{
    let p = Fr::characteristic();
    [p[0], p[1], p[2], p[3]]
}

} // verus!
