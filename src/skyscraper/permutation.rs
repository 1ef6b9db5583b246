//! The Skyscraper Feistel permutation, its Bar S-box on raw limbs and the
//! multi-limb reduction that brings the Bar output back below the modulus.

use vstd::prelude::*;
use crate::state::State;
use crate::field::{
    base128, base64, fr_add, fr_characteristic, fr_mul, lemma_bases, lemma_modulus_facts, limbs_value,
    mod_add, modulus, mont_mul, value4, Felt, MODULUS_LIMB_0, MODULUS_LIMB_1, MODULUS_LIMB_2,
    MODULUS_LIMB_3,
};

verus! {

/// base128()^i: the weight of the 128-bit limb at index i.
pub open spec fn limb_weight(i: nat) -> int
    decreases i,
{
    if i == 0 {
        1
    } else {
        base128() * limb_weight((i - 1) as nat)
    }
}

/// The integer formed by the first n limbs of s, little-endian.
pub open spec fn prefix_value(s: Seq<u128>, n: nat) -> int
    decreases n,
{
    if n == 0 {
        0
    } else {
        prefix_value(s, (n - 1) as nat) + s[n - 1] as int * limb_weight((n - 1) as nat)
    }
}

/// Every limb weight is positive.
pub proof fn lemma_limb_weight_positive(i: nat)
    ensures
        limb_weight(i) > 0,
    decreases i,
{
    if i > 0 {
        lemma_limb_weight_positive((i - 1) as nat);
        let w = limb_weight((i - 1) as nat);
        let b = base128();
        lemma_bases();
        assert(b * w > 0) by (nonlinear_arith)
            requires w > 0, b > 0;
    }
}

/// The first n limbs form an integer in [0, base128()^n).
pub proof fn lemma_prefix_value_bounds(s: Seq<u128>, n: nat)
    requires
        n <= s.len(),
    ensures
        0 <= prefix_value(s, n) < limb_weight(n),
    decreases n,
{
    if n > 0 {
        let m = (n - 1) as nat;
        lemma_prefix_value_bounds(s, m);
        lemma_limb_weight_positive(m);
        let w = limb_weight(m);
        let v = prefix_value(s, m);
        let d = s[n - 1] as int;
        let b = base128();
        lemma_bases();
        assert(0 <= v + d * w < b * w) by (nonlinear_arith)
            requires 0 <= v < w, 0 <= d < b, w > 0;
    }
}

/// A prefix value reads only the limbs it covers.
pub proof fn lemma_prefix_value_same(s: Seq<u128>, t: Seq<u128>, n: nat)
    requires
        n <= s.len(),
        n <= t.len(),
        forall|j: int| 0 <= j < n ==> s[j] == t[j],
    ensures
        prefix_value(s, n) == prefix_value(t, n),
    decreases n,
{
    if n > 0 {
        lemma_prefix_value_same(s, t, (n - 1) as nat);
    }
}

/// Adds one to `left` when `right` holds.
pub fn incr(left: &mut u128, right: bool)
    requires
        right ==> *old(left) < u128::MAX,
    ensures
        *final(left) == *old(left) + if right { 1u128 } else { 0u128 },
{
    if right {
        *left += 1;
    }
}

/// Ripple-borrow subtraction: the first `rhs.len()` limbs of `lhs` become
/// (lhs - rhs) mod base128()^rhs.len(); the limbs above are left as they were.
pub fn sub_full(lhs: &mut [u128], rhs: &[u128])
    requires
        rhs@.len() >= 1,
        old(lhs)@.len() >= rhs@.len(),
    ensures
        final(lhs)@.len() == old(lhs)@.len(),
        prefix_value(final(lhs)@, rhs@.len()) == (prefix_value(old(lhs)@, rhs@.len())
            - prefix_value(rhs@, rhs@.len())) % limb_weight(rhs@.len()),
        forall|j: int| rhs@.len() <= j < old(lhs)@.len() ==> final(lhs)@[j] == old(lhs)@[j],
{
    let ghost a = lhs@;
    let ghost b = rhs@;
    let n = rhs.len();
    let borrow0: bool = lhs[0] < rhs[0];
    lhs[0] = lhs[0].wrapping_sub(rhs[0]);
    let mut overflow_part: u128 = if borrow0 { 1 } else { 0 };
    proof {
        lemma_bases();
        reveal_with_fuel(prefix_value, 2);
        reveal_with_fuel(limb_weight, 2);
        assert(prefix_value(lhs@, 1) == lhs@[0] as int);
        assert(prefix_value(a, 1) == a[0] as int);
        assert(prefix_value(b, 1) == b[0] as int);
    }
    let mut index: usize = 1;
    while index < n
        invariant
            1 <= index <= n,
            n == b.len(),
            b == rhs@,
            lhs@.len() == a.len(),
            a.len() >= n,
            overflow_part <= 1,
            forall|j: int| index <= j < a.len() ==> lhs@[j] == a[j],
            prefix_value(lhs@, index as nat) == prefix_value(a, index as nat) - prefix_value(b, index as nat)
                + overflow_part as int * limb_weight(index as nat),
        decreases n - index,
    {
        let ghost before = lhs@;
        let borrow_in = overflow_part;
        let limb = lhs[index];
        let o1: bool = limb < borrow_in;
        let l1 = limb.wrapping_sub(borrow_in);
        overflow_part = if o1 { 1 } else { 0 };
        let o2: bool = l1 < rhs[index];
        lhs[index] = l1.wrapping_sub(rhs[index]);
        incr(&mut overflow_part, o2);
        proof {
            lemma_bases();
            let i = index as int;
            assert(lhs@[i] as int == a[i] as int - borrow_in as int - b[i] as int
                + overflow_part as int * base128());
            assert(overflow_part <= 1);
            lemma_prefix_value_same(lhs@, before, index as nat);
            let w = limb_weight(index as nat);
            assert(limb_weight((index + 1) as nat) == base128() * w);
            assert(prefix_value(lhs@, (index + 1) as nat) == prefix_value(lhs@, index as nat) + lhs@[i] as int * w);
            assert(prefix_value(a, (index + 1) as nat) == prefix_value(a, index as nat) + a[i] as int * w);
            assert(prefix_value(b, (index + 1) as nat) == prefix_value(b, index as nat) + b[i] as int * w);
            let ov = overflow_part as int;
            let bi = borrow_in as int;
            let bb = base128();
            let ai = a[i] as int;
            let ri = b[i] as int;
            assert((ai - bi - ri + ov * bb) * w + bi * w == ai * w - ri * w + ov * (bb * w))
                by (nonlinear_arith);
        }
        index = index + 1;
    }
    proof {
        let m = limb_weight(n as nat);
        let x = prefix_value(lhs@, n as nat);
        let d = prefix_value(a, n as nat) - prefix_value(b, n as nat);
        lemma_prefix_value_bounds(lhs@, n as nat);
        lemma_limb_weight_positive(n as nat);
        assert(x == d + overflow_part as int * m);
        if overflow_part == 1 {
            vstd::arithmetic::div_mod::lemma_fundamental_div_mod_converse(d, m, -1, x);
        } else {
            vstd::arithmetic::div_mod::lemma_fundamental_div_mod_converse(d, m, 0, x);
        }
    }
}

/// The 256-bit integer held by two little-endian 128-bit limbs.
pub open spec fn pair_value(d: [u128; 2]) -> int {
    d[0] as int + base128() * d[1] as int
}

/// Two 64-bit limbs packed into one 128-bit limb, low limb first.
pub proof fn lemma_pack(lo: u64, hi: u64)
    ensures
        ((lo as u128) | ((hi as u128) << 64u128)) as int == lo as int + base64() * hi as int,
{
    let x = lo as u128;
    let y = hi as u128;
    assert(x <= 0xffff_ffff_ffff_ffffu128 && y <= 0xffff_ffff_ffff_ffffu128 ==>
        (x | (y << 64u128)) == x + (y << 64u128)) by (bit_vector);
    assert(y <= 0xffff_ffff_ffff_ffffu128 ==> (y << 64u128) == y * 0x1_0000_0000_0000_0000u128) by (bit_vector);
    lemma_bases();
    assert(y * 0x1_0000_0000_0000_0000u128 <= 0xffff_ffff_ffff_ffff_0000_0000_0000_0000u128) by (nonlinear_arith)
        requires y <= 0xffff_ffff_ffff_ffffu128;
}

/// The two-limb prefix of an array of two limbs is its pair value.
proof fn lemma_pair_prefix(d: [u128; 2])
    ensures
        prefix_value(d@, 2) == pair_value(d),
{
    reveal_with_fuel(prefix_value, 3);
    reveal_with_fuel(limb_weight, 3);
    vstd::array::lemma_array_index(d, 0);
    vstd::array::lemma_array_index(d, 1);
    assert(limb_weight(0) == 1);
    assert(limb_weight(1) == base128());
    assert(prefix_value(d@, 1) == d[0] as int);
    assert(prefix_value(d@, 2) == d[0] as int + d[1] as int * base128());
}

/// Packs two 64-bit limbs into one 128-bit limb, low limb first.
fn pack(lo: u64, hi: u64) -> (r: u128)
    ensures
        r as int == lo as int + base64() * hi as int,
{
    proof {
        lemma_pack(lo, hi);
    }
    (lo as u128) | ((hi as u128) << 64u128)
}

/// Reduces a 256-bit integer, held as two 128-bit limbs, modulo the field's
/// characteristic by repeated subtraction of the modulus.
pub fn reduce_small(lhs: &mut [u128; 2])
    ensures
        pair_value(*final(lhs)) == pair_value(*old(lhs)) % modulus(),
{
    let pa = fr_characteristic();
    let prime: [u128; 2] = [pack(pa[0], pa[1]), pack(pa[2], pa[3])];
    let ghost start = pair_value(*lhs);
    proof {
        lemma_bases();
        lemma_modulus_facts();
        let b = base64();
        assert(pair_value(prime) == modulus()) by (nonlinear_arith)
            requires
                prime[0] as int == MODULUS_LIMB_0 as int + b * MODULUS_LIMB_1 as int,
                prime[1] as int == MODULUS_LIMB_2 as int + b * MODULUS_LIMB_3 as int,
                base128() == b * b,
                pair_value(prime) == prime[0] as int + base128() * prime[1] as int,
                modulus() == value4(MODULUS_LIMB_0 as int, MODULUS_LIMB_1 as int, MODULUS_LIMB_2 as int, MODULUS_LIMB_3 as int),
                value4(MODULUS_LIMB_0 as int, MODULUS_LIMB_1 as int, MODULUS_LIMB_2 as int, MODULUS_LIMB_3 as int)
                    == MODULUS_LIMB_0 as int + b * (MODULUS_LIMB_1 as int + b * (MODULUS_LIMB_2 as int + b * MODULUS_LIMB_3 as int));
        lemma_pair_prefix(prime);
    }
    loop
        invariant
            pair_value(prime) == modulus(),
            0 < modulus(),
            base128() == u128::MAX as int + 1,
            pair_value(*lhs) >= 0,
            pair_value(*lhs) % modulus() == start % modulus(),
            start == pair_value(*old(lhs)),
        decreases pair_value(*lhs),
    {
        let ghost before = *lhs;
        proof {
            lemma_pair_prefix(*lhs);
        }
        if lhs[1] < prime[1] || (lhs[1] == prime[1] && lhs[0] < prime[0]) {
            proof {
                let (x0, x1, p0, p1, b) = (lhs[0] as int, lhs[1] as int, prime[0] as int, prime[1] as int, base128());
                assert(x0 + b * x1 < p0 + b * p1) by (nonlinear_arith)
                    requires
                        x1 < p1 || (x1 == p1 && x0 < p0),
                        0 <= x0 < b,
                        0 <= p0 < b;
                vstd::arithmetic::div_mod::lemma_small_mod(pair_value(*lhs) as nat, modulus() as nat);
            }
            return;
        }
        if lhs[1] == prime[1] && lhs[0] == prime[0] {
            proof {
                vstd::arithmetic::div_mod::lemma_mod_self_0(modulus());
            }
            lhs[0] = 0;
            lhs[1] = 0;
            proof {
                assert(pair_value(*lhs) == 0);
                vstd::arithmetic::div_mod::lemma_small_mod(0, modulus() as nat);
            }
            return;
        }
        proof {
            let (x0, x1, p0, p1, b) = (lhs[0] as int, lhs[1] as int, prime[0] as int, prime[1] as int, base128());
            assert(x0 + b * x1 > p0 + b * p1) by (nonlinear_arith)
                requires
                    x1 > p1 || (x1 == p1 && x0 > p0),
                    0 <= x0 < b,
                    0 <= p0 < b;
        }
        sub_full(lhs, &prime);
        proof {
            lemma_pair_prefix(*lhs);
            lemma_pair_prefix(prime);
            reveal_with_fuel(limb_weight, 3);
            let m = limb_weight(2);
            let d = pair_value(before) - modulus();
            assert(m == base128() * base128());
            lemma_prefix_value_bounds(before@, 2);
            lemma_pair_prefix(before);
            vstd::arithmetic::div_mod::lemma_small_mod(d as nat, m as nat);
            vstd::arithmetic::div_mod::lemma_mod_sub_multiples_vanish(pair_value(before), modulus());
        }
    }
}

/// Rotates every byte of v left by one bit.
pub open spec fn rotl1_bytes(v: u128) -> u128 {
    ((v & 0x80808080808080808080808080808080u128) >> 7u128) | ((v & 0x7F7F7F7F7F7F7F7F7F7F7F7F7F7F7F7Fu128) << 1u128)
}

/// Rotates every byte of v left by two bits.
pub open spec fn rotl2_bytes(v: u128) -> u128 {
    ((v & 0xC0C0C0C0C0C0C0C0C0C0C0C0C0C0C0C0u128) >> 6u128) | ((v & 0x3F3F3F3F3F3F3F3F3F3F3F3F3F3F3F3Fu128) << 2u128)
}

/// Rotates every byte of v left by three bits.
pub open spec fn rotl3_bytes(v: u128) -> u128 {
    ((v & 0xE0E0E0E0E0E0E0E0E0E0E0E0E0E0E0E0u128) >> 5u128) | ((v & 0x1F1F1F1F1F1F1F1F1F1F1F1F1F1F1F1Fu128) << 3u128)
}

/// The byte-sliced transform of the Bar S-box: in every byte b,
/// b ^ (!rotl1(b) & rotl2(b) & rotl3(b)), then rotated left by one bit.
pub open spec fn t_spec(v: u128) -> u128 {
    rotl1_bytes((!rotl1_bytes(v) & rotl2_bytes(v) & rotl3_bytes(v)) ^ v)
}

/// The Bar S-box on a 256-bit representation v: the transform is applied to
/// each 128-bit half with the halves swapped, and the result reduced mod p.
pub open spec fn bar_spec(v: int) -> int {
    let lo = (v % base128()) as u128;
    let hi = (v / base128()) as u128;
    pair_value([t_spec(hi), t_spec(lo)]) % modulus()
}

/// The per-byte S-box of the transform, on a byte b held in a u128:
/// b ^ (!rotl1(b) & rotl2(b) & rotl3(b)), rotated left by one bit.
pub open spec fn byte_sbox(b: u128) -> u128 {
    let r1 = ((b & 0x80u128) >> 7u128) | ((b & 0x7Fu128) << 1u128);
    let r2 = ((b & 0xC0u128) >> 6u128) | ((b & 0x3Fu128) << 2u128);
    let r3 = ((b & 0xE0u128) >> 5u128) | ((b & 0x1Fu128) << 3u128);
    let tmp = ((!r1 & r2 & r3) ^ b) & 0xFFu128;
    ((tmp & 0x80u128) >> 7u128) | ((tmp & 0x7Fu128) << 1u128)
}

/// The transform acts on each of the 16 bytes of v alone: byte k of t_spec(v)
/// is byte_sbox of byte k of v.
pub proof fn lemma_t_bytewise(v: u128, k: u128)
    requires
        k < 16,
    ensures
        (t_spec(v) >> (8u128 * k)) & 0xFFu128 == byte_sbox((v >> (8u128 * k)) & 0xFFu128),
{
    let t1 = rotl1_bytes(v);
    let t2 = rotl2_bytes(v);
    let t3 = rotl3_bytes(v);
    let tmp = (!t1 & t2 & t3) ^ v;
    let r = rotl1_bytes(tmp);
    let b = (v >> (8u128 * k)) & 0xFFu128;
    let r1 = ((b & 0x80u128) >> 7u128) | ((b & 0x7Fu128) << 1u128);
    let r2 = ((b & 0xC0u128) >> 6u128) | ((b & 0x3Fu128) << 2u128);
    let r3 = ((b & 0xE0u128) >> 5u128) | ((b & 0x1Fu128) << 3u128);
    let bt = ((!r1 & r2 & r3) ^ b) & 0xFFu128;
    let rb = ((bt & 0x80u128) >> 7u128) | ((bt & 0x7Fu128) << 1u128);
    assert((r >> (8u128 * k)) & 0xFFu128 == rb) by (bit_vector)
        requires
            k < 16,
            t1 == ((v & 0x80808080808080808080808080808080u128) >> 7u128)
                | ((v & 0x7F7F7F7F7F7F7F7F7F7F7F7F7F7F7F7Fu128) << 1u128),
            t2 == ((v & 0xC0C0C0C0C0C0C0C0C0C0C0C0C0C0C0C0u128) >> 6u128)
                | ((v & 0x3F3F3F3F3F3F3F3F3F3F3F3F3F3F3F3Fu128) << 2u128),
            t3 == ((v & 0xE0E0E0E0E0E0E0E0E0E0E0E0E0E0E0E0u128) >> 5u128)
                | ((v & 0x1F1F1F1F1F1F1F1F1F1F1F1F1F1F1F1Fu128) << 3u128),
            tmp == (!t1 & t2 & t3) ^ v,
            r == ((tmp & 0x80808080808080808080808080808080u128) >> 7u128)
                | ((tmp & 0x7F7F7F7F7F7F7F7F7F7F7F7F7F7F7F7Fu128) << 1u128),
            b == (v >> (8u128 * k)) & 0xFFu128,
            r1 == ((b & 0x80u128) >> 7u128) | ((b & 0x7Fu128) << 1u128),
            r2 == ((b & 0xC0u128) >> 6u128) | ((b & 0x3Fu128) << 2u128),
            r3 == ((b & 0xE0u128) >> 5u128) | ((b & 0x1Fu128) << 3u128),
            bt == ((!r1 & r2 & r3) ^ b) & 0xFFu128,
            rb == ((bt & 0x80u128) >> 7u128) | ((bt & 0x7Fu128) << 1u128);
}

/// The byte-sliced transform on one 128-bit half.
fn t_function(value: u128) -> (r: u128)
    ensures
        r == t_spec(value),
{
    let t1 = ((value & 0x80808080808080808080808080808080u128) >> 7u128)
        | ((value & 0x7F7F7F7F7F7F7F7F7F7F7F7F7F7F7F7Fu128) << 1u128);
    let t2 = ((value & 0xC0C0C0C0C0C0C0C0C0C0C0C0C0C0C0C0u128) >> 6u128)
        | ((value & 0x3F3F3F3F3F3F3F3F3F3F3F3F3F3F3F3Fu128) << 2u128);
    let t3 = ((value & 0xE0E0E0E0E0E0E0E0E0E0E0E0E0E0E0E0u128) >> 5u128)
        | ((value & 0x1F1F1F1F1F1F1F1F1F1F1F1F1F1F1F1Fu128) << 3u128);
    let tmp = (!t1 & t2 & t3) ^ value;
    ((tmp & 0x80808080808080808080808080808080u128) >> 7u128) | ((tmp & 0x7F7F7F7F7F7F7F7F7F7F7F7F7F7F7F7Fu128) << 1u128)
}

/// A 128-bit limb is its low 64 bits plus 2^64 times its high 64 bits.
proof fn lemma_unpack(v: u128)
    ensures
        v as int == (v & 0xFFFF_FFFF_FFFF_FFFFu128) as u64 as int + base64() * (v >> 64u128) as u64 as int,
{
    let l = v & 0xFFFF_FFFF_FFFF_FFFFu128;
    let h = v >> 64u128;
    assert(l <= 0xFFFF_FFFF_FFFF_FFFFu128) by (bit_vector)
        requires l == v & 0xFFFF_FFFF_FFFF_FFFFu128;
    assert(h <= 0xFFFF_FFFF_FFFF_FFFFu128) by (bit_vector)
        requires h == v >> 64u128;
    assert(v == l + h * 0x1_0000_0000_0000_0000u128
        && l + h * 0x1_0000_0000_0000_0000u128 <= 0xffff_ffff_ffff_ffff_ffff_ffff_ffff_ffffu128) by (bit_vector)
        requires l == v & 0xFFFF_FFFF_FFFF_FFFFu128, h == v >> 64u128;
    lemma_bases();
    assert(l as u64 as int == l as int);
    assert(h as u64 as int == h as int);
}

/// The Bar S-box, applied in place to the raw Montgomery limbs of x.
pub fn bars_inplace_mont(x: &mut Felt)
    ensures
        final(x).wf(),
        final(x).raw() == bar_spec(old(x).raw()),
{
    let limbs = x.limbs;
    let mut data: [u128; 2] = [0u128; 2];
    data[0] = pack(limbs[0], limbs[1]);
    data[1] = pack(limbs[2], limbs[3]);
    let ghost lo = data[0];
    let ghost hi = data[1];
    proof {
        lemma_bases();
        let b = base64();
        let (l0, l1, l2, l3) = (limbs[0] as int, limbs[1] as int, limbs[2] as int, limbs[3] as int);
        assert(limbs_value(limbs) == lo as int + base128() * hi as int) by (nonlinear_arith)
            requires
                limbs_value(limbs) == l0 + b * (l1 + b * (l2 + b * l3)),
                lo as int == l0 + b * l1,
                hi as int == l2 + b * l3,
                base128() == b * b;
        vstd::arithmetic::div_mod::lemma_fundamental_div_mod_converse(
            limbs_value(limbs), base128(), hi as int, lo as int);
    }

    let tmp_lo = t_function(data[1]);
    let tmp_hi = t_function(data[0]);
    data[0] = tmp_lo;
    data[1] = tmp_hi;

    reduce_small(&mut data);

    let lo_r = data[0];
    let hi_r = data[1];
    let mut out: [u64; 4] = [0u64; 4];
    out[0] = (lo_r & 0xFFFF_FFFF_FFFF_FFFFu128) as u64;
    out[1] = (lo_r >> 64u128) as u64;
    out[2] = (hi_r & 0xFFFF_FFFF_FFFF_FFFFu128) as u64;
    out[3] = (hi_r >> 64u128) as u64;
    proof {
        lemma_unpack(lo_r);
        lemma_unpack(hi_r);
        lemma_modulus_facts();
        let b = base64();
        let (o0, o1, o2, o3) = (out[0] as int, out[1] as int, out[2] as int, out[3] as int);
        assert(limbs_value(out) == lo_r as int + base128() * hi_r as int) by (nonlinear_arith)
            requires
                limbs_value(out) == o0 + b * (o1 + b * (o2 + b * o3)),
                lo_r as int == o0 + b * o1,
                hi_r as int == o2 + b * o3,
                base128() == b * b;
        assert(pair_value(data) == lo_r as int + base128() * hi_r as int);
    }
    *x = Felt { limbs: out };
}

/// The S-box of one round.
#[derive(Clone, Copy, Debug, PartialEq, Eq)]
pub enum FunctionBlock {
    Square,
    Bar,
}

/// The round configuration of the permutation: one S-box per round, and the
/// constants added to the right lane on the interior rounds, in raw form.
pub struct RoundSchedule {
    pub blocks: Vec<FunctionBlock>,
    pub constants: Vec<Felt>,
}

impl RoundSchedule {
    /// Every interior round has its constant, and each constant is reduced.
    pub open spec fn wf(&self) -> bool {
        &&& self.constants@.len() + 2 >= self.blocks@.len()
        &&& forall|i: int| 0 <= i < self.constants@.len() ==> (#[trigger] self.constants@[i]).wf()
    }

    /// The raw constants.
    pub open spec fn constants_raw(&self) -> Seq<int> {
        self.constants@.map_values(|c: Felt| c.raw())
    }
}

/// The S-box f on a raw representation.
pub open spec fn sbox_spec(f: FunctionBlock, v: int) -> int {
    match f {
        FunctionBlock::Square => mont_mul(v, v),
        FunctionBlock::Bar => bar_spec(v),
    }
}

/// Round i of the Feistel network on (left, right): the S-box on left, the
/// round constant i - 1 added to right on an interior round, then
/// (S(left) + right, left).
pub open spec fn round_spec(blocks: Seq<FunctionBlock>, constants: Seq<int>, i: int, l: int, r: int) -> (int, int) {
    let r2 = if 0 < i < blocks.len() - 1 { mod_add(r, constants[i - 1]) } else { r };
    (mod_add(sbox_spec(blocks[i], l), r2), l)
}

/// The lanes after the first n rounds, starting from (l, r).
pub open spec fn rounds_spec(blocks: Seq<FunctionBlock>, constants: Seq<int>, n: nat, l: int, r: int) -> (int, int)
    decreases n,
{
    if n == 0 {
        (l, r)
    } else {
        let prev = rounds_spec(blocks, constants, (n - 1) as nat, l, r);
        round_spec(blocks, constants, n - 1, prev.0, prev.1)
    }
}

/// The permutation of (l, r) under the whole schedule.
pub open spec fn permute_spec(blocks: Seq<FunctionBlock>, constants: Seq<int>, l: int, r: int) -> (int, int) {
    rounds_spec(blocks, constants, blocks.len(), l, r)
}

/// Rounds started from reduced lanes keep both lanes in [0, p).
pub proof fn lemma_rounds_reduced(blocks: Seq<FunctionBlock>, constants: Seq<int>, n: nat, l: int, r: int)
    requires
        0 <= l < modulus(),
        0 <= r < modulus(),
    ensures
        0 <= rounds_spec(blocks, constants, n, l, r).0 < modulus(),
        0 <= rounds_spec(blocks, constants, n, l, r).1 < modulus(),
    decreases n,
{
    lemma_modulus_facts();
    if n > 0 {
        lemma_rounds_reduced(blocks, constants, (n - 1) as nat, l, r);
    }
}

/// The Square S-box: x * x in the field.
fn square_inplace(x: &mut Felt)
    requires
        old(x).wf(),
    ensures
        final(x).raw() == mont_mul(old(x).raw(), old(x).raw()),
{
    *x = fr_mul(*x, *x);
}

/// The Skyscraper permutation of two field elements under `schedule`.
pub fn permute(schedule: &RoundSchedule, input: [Felt; 2]) -> (out: [Felt; 2])
    requires
        schedule.wf(),
        input[0].wf(),
        input[1].wf(),
    ensures
        out[0].wf(),
        out[1].wf(),
        (out[0].raw(), out[1].raw()) == permute_spec(
            schedule.blocks@, schedule.constants_raw(), input[0].raw(), input[1].raw()),
{
    let ghost blocks = schedule.blocks@;
    let ghost constants = schedule.constants_raw();
    let mut current_state = input;
    let mut left = current_state[0];
    let mut right = current_state[1];
    let n = schedule.blocks.len();
    let mut i: usize = 0;
    proof {
        lemma_modulus_facts();
    }
    while i < n
        invariant
            schedule.wf(),
            n == blocks.len(),
            blocks == schedule.blocks@,
            constants == schedule.constants_raw(),
            0 < modulus(),
            i <= n,
            left == current_state[0],
            left.wf(),
            right.wf(),
            (left.raw(), right.raw()) == rounds_spec(blocks, constants, i as nat, input[0].raw(), input[1].raw()),
        decreases n - i,
    {
        match schedule.blocks[i] {
            FunctionBlock::Square => square_inplace(&mut left),
            FunctionBlock::Bar => bars_inplace_mont(&mut left),
        }
        if i > 0 && i < n - 1 {
            right = fr_add(right, schedule.constants[i - 1]);
        }
        left = fr_add(left, right);
        right = current_state[0];
        current_state[0] = left;
        i = i + 1;
    }
    current_state[1] = right;
    current_state
}

/// Permutes the x and y lanes of a state in place; the z lane is not read or written.
pub fn permute_state_inplace(schedule: &RoundSchedule, u: &mut State)
    requires
        schedule.wf(),
        old(u).wf(),
    ensures
        final(u).wf(),
        (final(u).x.raw(), final(u).y.raw()) == permute_spec(
            schedule.blocks@, schedule.constants_raw(), old(u).x.raw(), old(u).y.raw()),
        final(u).z == old(u).z,
{
    let ns = permute(schedule, [u.x, u.y]);
    u.x = ns[0];
    u.y = ns[1];
}

/// Permutes the x and y lanes of a state; the z lane is carried over unchanged.
pub fn permute_state(schedule: &RoundSchedule, u: State) -> (r: State)
    requires
        schedule.wf(),
        u.wf(),
    ensures
        r.wf(),
        (r.x.raw(), r.y.raw()) == permute_spec(schedule.blocks@, schedule.constants_raw(), u.x.raw(), u.y.raw()),
        r.z == u.z,
{
    let mut u = u;
    permute_state_inplace(schedule, &mut u);
    u
}

/// Two-to-one compression: x plus the first lane of the permutation of (x, y).
pub fn compress(schedule: &RoundSchedule, x: Felt, y: Felt) -> (r: Felt)
    requires
        schedule.wf(),
        x.wf(),
        y.wf(),
    ensures
        r.raw() == mod_add(x.raw(), permute_spec(schedule.blocks@, schedule.constants_raw(), x.raw(), y.raw()).0),
{
    let p_out = permute(schedule, [x, y]);
    fr_add(x, p_out[0])
}

} // verus!
